//! Conflicts between packages about to be installed and packages already
//! installed: finding them in the package databases, and deciding whether
//! to go on.
use vstd::prelude::*;
use vstd::multiset::Multiset;
use crate::text::{chars_of, string_of, find, find_exec, lex_le, lex_le_exec, seq_eq, str_eq,
    slice_range, lemma_lex_order, lemma_find_from};
use crate::sort::{Preorder, sort_by, sorted_by};

verus! {

broadcast use vstd::seq_lib::group_to_multiset_ensures;

/// A package about to be installed that conflicts with an installed one.
#[derive(Debug)]
pub struct ConflictInfo {
    pub incoming_pkg: String,
    pub installed_pkg: String,
    pub constraint: Option<String>,
}

/// How a dependency's version is compared.
#[derive(Clone, Copy, Debug, PartialEq, Eq, Structural)]
pub enum DepMod {
    Any,
    Eq,
    Ge,
    Le,
    Gt,
    Lt,
}

/// An entry of a package's conflict list: a name, and an optional version
/// with its comparison.
#[derive(Debug)]
pub struct Depend {
    pub name: String,
    pub depmod: DepMod,
    pub version: Option<String>,
}

/// A package of a database, as far as conflicts are concerned.
#[derive(Debug)]
pub struct DbPackage {
    pub name: String,
    pub conflicts: Vec<Depend>,
}

/// A conflict as plain text: incoming package, installed package, constraint.
pub open spec fn conflict_view(c: ConflictInfo) -> (Seq<char>, Seq<char>, Option<Seq<char>>) {
    (c.incoming_pkg@, c.installed_pkg@, opt_view(c.constraint))
}

pub open spec fn opt_view(o: Option<String>) -> Option<Seq<char>> {
    match o {
        Some(s) => Some(s@),
        None => None,
    }
}

pub open spec fn views(s: Seq<ConflictInfo>) -> Seq<(Seq<char>, Seq<char>, Option<Seq<char>>)> {
    s.map_values(|c: ConflictInfo| conflict_view(c))
}

pub open spec fn depmod_text(m: DepMod) -> Seq<char> {
    match m {
        DepMod::Any => ""@,
        DepMod::Eq => "="@,
        DepMod::Ge => ">="@,
        DepMod::Le => "<="@,
        DepMod::Gt => ">"@,
        DepMod::Lt => "<"@,
    }
}

/// The constraint shown for a conflict entry: its comparison and version.
pub open spec fn dep_constraint(d: Depend) -> Option<Seq<char>> {
    match d.version {
        Some(v) => Some(depmod_text(d.depmod) + v@),
        None => None,
    }
}

/// Index of the first package named `name` in `db`, from index `k` on.
pub open spec fn find_pkg_from(db: Seq<DbPackage>, name: Seq<char>, k: int) -> Option<int>
    decreases db.len() - k,
{
    if k < 0 || k >= db.len() {
        None
    } else if db[k].name@ == name {
        Some(k)
    } else {
        find_pkg_from(db, name, k + 1)
    }
}

pub open spec fn find_pkg(db: Seq<DbPackage>, name: Seq<char>) -> Option<int> {
    find_pkg_from(db, name, 0)
}

/// The first sync database, from the `j`-th on, that holds `name`: the
/// database's index and the package's index in it.
pub open spec fn sync_lookup(dbs: Seq<Vec<DbPackage>>, name: Seq<char>, j: int) -> Option<(int, int)>
    decreases dbs.len() - j,
{
    if j < 0 || j >= dbs.len() {
        None
    } else {
        match find_pkg(dbs[j]@, name) {
            Some(i) => Some((j, i)),
            None => sync_lookup(dbs, name, j + 1),
        }
    }
}

/// The conflicts that the entries `deps` of the incoming package `incoming`
/// declare against installed packages.
pub open spec fn dep_hits(incoming: Seq<char>, deps: Seq<Depend>, local: Seq<DbPackage>) -> Seq<
    (Seq<char>, Seq<char>, Option<Seq<char>>),
>
    decreases deps.len(),
{
    if deps.len() == 0 {
        seq![]
    } else {
        let rest = dep_hits(incoming, deps.drop_last(), local);
        let d = deps.last();
        match find_pkg(local, d.name@) {
            Some(i) => rest.push((incoming, local[i].name@, dep_constraint(d))),
            None => rest,
        }
    }
}

/// The conflicts declared by the repository packages about to be installed.
pub open spec fn native_hits(native: Seq<String>, dbs: Seq<Vec<DbPackage>>, local: Seq<DbPackage>) -> Seq<
    (Seq<char>, Seq<char>, Option<Seq<char>>),
>
    decreases native.len(),
{
    if native.len() == 0 {
        seq![]
    } else {
        let t = native.last()@;
        native_hits(native.drop_last(), dbs, local) + match sync_lookup(dbs, t, 0) {
            Some((j, i)) => dep_hits(t, dbs[j]@[i].conflicts@, local),
            None => seq![],
        }
    }
}

/// A conflict entry of an AUR package split at its first comparison
/// operator, tried in the order `<=`, `>=`, `==`, `<`, `>`, `=`: the name
/// before it, and the operator with what follows.
pub open spec fn split_constraint(s: Seq<char>) -> (Seq<char>, Option<Seq<char>>) {
    if find(s, "<="@) is Some {
        (s.take(find(s, "<="@)->0), Some(s.skip(find(s, "<="@)->0)))
    } else if find(s, ">="@) is Some {
        (s.take(find(s, ">="@)->0), Some(s.skip(find(s, ">="@)->0)))
    } else if find(s, "=="@) is Some {
        (s.take(find(s, "=="@)->0), Some(s.skip(find(s, "=="@)->0)))
    } else if find(s, "<"@) is Some {
        (s.take(find(s, "<"@)->0), Some(s.skip(find(s, "<"@)->0)))
    } else if find(s, ">"@) is Some {
        (s.take(find(s, ">"@)->0), Some(s.skip(find(s, ">"@)->0)))
    } else if find(s, "="@) is Some {
        (s.take(find(s, "="@)->0), Some(s.skip(find(s, "="@)->0)))
    } else {
        (s, None)
    }
}

/// The conflicts of one AUR package whose conflict entries are `list`.
pub open spec fn aur_entry_hits(pkg: Seq<char>, list: Seq<String>, local: Seq<DbPackage>) -> Seq<
    (Seq<char>, Seq<char>, Option<Seq<char>>),
>
    decreases list.len(),
{
    if list.len() == 0 {
        seq![]
    } else {
        let rest = aur_entry_hits(pkg, list.drop_last(), local);
        let (name, value) = split_constraint(list.last()@);
        match find_pkg(local, name) {
            Some(i) => rest.push((pkg, local[i].name@, value)),
            None => rest,
        }
    }
}

pub open spec fn aur_hits(aur: Seq<(String, Vec<String>)>, local: Seq<DbPackage>) -> Seq<
    (Seq<char>, Seq<char>, Option<Seq<char>>),
>
    decreases aur.len(),
{
    if aur.len() == 0 {
        seq![]
    } else {
        aur_hits(aur.drop_last(), local) + aur_entry_hits(aur.last().0@, aur.last().1@, local)
    }
}

/// Whether `name` is one of the packages about to be installed.
pub open spec fn is_requested(name: Seq<char>, native: Seq<String>, aur: Seq<(String, Vec<String>)>) -> bool {
    (exists|i: int| 0 <= i < native.len() && (#[trigger] native[i])@ == name) || (exists|i: int|
        0 <= i < aur.len() && (#[trigger] aur[i]).0@ == name)
}

/// The conflicts that the entries `deps` of the installed package
/// `installed` declare against requested packages.
pub open spec fn local_dep_hits(
    installed: Seq<char>,
    deps: Seq<Depend>,
    native: Seq<String>,
    aur: Seq<(String, Vec<String>)>,
) -> Seq<(Seq<char>, Seq<char>, Option<Seq<char>>)>
    decreases deps.len(),
{
    if deps.len() == 0 {
        seq![]
    } else {
        let rest = local_dep_hits(installed, deps.drop_last(), native, aur);
        let d = deps.last();
        if is_requested(d.name@, native, aur) {
            rest.push((d.name@, installed, dep_constraint(d)))
        } else {
            rest
        }
    }
}

pub open spec fn local_hits(local: Seq<DbPackage>, native: Seq<String>, aur: Seq<(String, Vec<String>)>) -> Seq<
    (Seq<char>, Seq<char>, Option<Seq<char>>),
>
    decreases local.len(),
{
    if local.len() == 0 {
        seq![]
    } else {
        local_hits(local.drop_last(), native, aur) + local_dep_hits(
            local.last().name@,
            local.last().conflicts@,
            native,
            aur,
        )
    }
}

/// Every conflict found, before sorting: those declared by the repository
/// packages, by the AUR packages, and by installed packages against either.
pub open spec fn all_hits(
    native: Seq<String>,
    aur: Seq<(String, Vec<String>)>,
    dbs: Seq<Vec<DbPackage>>,
    local: Seq<DbPackage>,
) -> Seq<(Seq<char>, Seq<char>, Option<Seq<char>>)> {
    native_hits(native, dbs, local) + aur_hits(aur, local) + local_hits(local, native, aur)
}

pub open spec fn opt_le(a: Option<Seq<char>>, b: Option<Seq<char>>) -> bool {
    match (a, b) {
        (None, _) => true,
        (Some(_), None) => false,
        (Some(x), Some(y)) => lex_le(x, y),
    }
}

/// The order of conflicts: by incoming package, then installed package,
/// then constraint (none first).
pub open spec fn conflict_le(
    a: (Seq<char>, Seq<char>, Option<Seq<char>>),
    b: (Seq<char>, Seq<char>, Option<Seq<char>>),
) -> bool {
    if a.0 != b.0 {
        lex_le(a.0, b.0)
    } else if a.1 != b.1 {
        lex_le(a.1, b.1)
    } else {
        opt_le(a.2, b.2)
    }
}

pub proof fn lemma_conflict_order(
    a: (Seq<char>, Seq<char>, Option<Seq<char>>),
    b: (Seq<char>, Seq<char>, Option<Seq<char>>),
    c: (Seq<char>, Seq<char>, Option<Seq<char>>),
)
    ensures
        conflict_le(a, b) || conflict_le(b, a),
        conflict_le(a, b) && conflict_le(b, c) ==> conflict_le(a, c),
        conflict_le(a, b) && conflict_le(b, a) ==> a == b,
{
    lemma_lex_order(a.0, b.0, c.0);
    lemma_lex_order(b.0, c.0, a.0);
    lemma_lex_order(c.0, a.0, b.0);
    lemma_lex_order(a.1, b.1, c.1);
    lemma_lex_order(b.1, c.1, a.1);
    lemma_lex_order(c.1, a.1, b.1);
    if a.2 is Some && b.2 is Some && c.2 is Some {
        lemma_lex_order(a.2->0, b.2->0, c.2->0);
    }
    if a.2 is Some && b.2 is Some {
        lemma_lex_order(a.2->0, b.2->0, a.2->0);
    }
}

/// The conflict order as a preorder on records.
pub struct ConflictOrder;

impl Preorder<ConflictInfo> for ConflictOrder {
    open spec fn le(&self, a: ConflictInfo, b: ConflictInfo) -> bool {
        conflict_le(conflict_view(a), conflict_view(b))
    }

    proof fn total(&self, a: ConflictInfo, b: ConflictInfo) {
        lemma_conflict_order(conflict_view(a), conflict_view(b), conflict_view(a));
    }

    proof fn transitive(&self, a: ConflictInfo, b: ConflictInfo, c: ConflictInfo) {
        lemma_conflict_order(conflict_view(a), conflict_view(b), conflict_view(c));
    }

    fn le_exec(&self, a: &ConflictInfo, b: &ConflictInfo) -> (r: bool) {
        let ai = chars_of(a.incoming_pkg.as_str());
        let bi = chars_of(b.incoming_pkg.as_str());
        if !seq_eq(ai.as_slice(), bi.as_slice()) {
            return lex_le_exec(ai.as_slice(), bi.as_slice());
        }
        let an = chars_of(a.installed_pkg.as_str());
        let bn = chars_of(b.installed_pkg.as_str());
        if !seq_eq(an.as_slice(), bn.as_slice()) {
            return lex_le_exec(an.as_slice(), bn.as_slice());
        }
        match (&a.constraint, &b.constraint) {
            (None, _) => true,
            (Some(_), None) => false,
            (Some(x), Some(y)) => {
                let xc = chars_of(x.as_str());
                let yc = chars_of(y.as_str());
                lex_le_exec(xc.as_slice(), yc.as_slice())
            },
        }
    }
}

/// A copy of a conflict record.
pub fn clone_conflict(c: &ConflictInfo) -> (r: ConflictInfo)
    ensures
        conflict_view(r) == conflict_view(*c),
{
    ConflictInfo {
        incoming_pkg: c.incoming_pkg.clone(),
        installed_pkg: c.installed_pkg.clone(),
        constraint: match &c.constraint {
            Some(s) => Some(s.clone()),
            None => None,
        },
    }
}

fn depmod_str(m: DepMod) -> (r: &'static str)
    ensures
        r@ == depmod_text(m),
{
    match m {
        DepMod::Any => "",
        DepMod::Eq => "=",
        DepMod::Ge => ">=",
        DepMod::Le => "<=",
        DepMod::Gt => ">",
        DepMod::Lt => "<",
    }
}

/// The constraint shown for a conflict entry: its comparison operator
/// followed by its version, or none when it names no version.
pub fn dep_constraint_exec(d: &Depend) -> (r: Option<String>)
    ensures
        opt_view(r) == dep_constraint(*d),
{
    match &d.version {
        Some(v) => {
            let m = depmod_str(d.depmod);
            Some(m.to_string().concat(v.as_str()))
        },
        None => None,
    }
}

/// The first package named `name` in `db`.
pub fn find_pkg_exec(db: &Vec<DbPackage>, name: &str) -> (r: Option<usize>)
    ensures
        match r {
            Some(i) => find_pkg(db@, name@) == Some(i as int) && i < db.len(),
            None => find_pkg(db@, name@) is None,
        },
{
    let mut k: usize = 0;
    while k < db.len()
        invariant
            k <= db.len(),
            find_pkg(db@, name@) == find_pkg_from(db@, name@, k as int),
        decreases db.len() - k,
    {
        if str_eq(db[k].name.as_str(), name) {
            return Some(k);
        }
        k = k + 1;
    }
    None
}

fn sync_lookup_exec(dbs: &Vec<Vec<DbPackage>>, name: &str) -> (r: Option<(usize, usize)>)
    ensures
        match r {
            Some((j, i)) => sync_lookup(dbs@, name@, 0) == Some((j as int, i as int)) && j
                < dbs.len() && i < dbs[j as int].len(),
            None => sync_lookup(dbs@, name@, 0) is None,
        },
{
    let mut j: usize = 0;
    while j < dbs.len()
        invariant
            j <= dbs.len(),
            sync_lookup(dbs@, name@, 0) == sync_lookup(dbs@, name@, j as int),
        decreases dbs.len() - j,
    {
        match find_pkg_exec(&dbs[j], name) {
            Some(i) => {
                return Some((j, i));
            },
            None => {},
        }
        j = j + 1;
    }
    None
}

proof fn lemma_views_push(s: Seq<ConflictInfo>, c: ConflictInfo)
    ensures
        views(s.push(c)) == views(s).push(conflict_view(c)),
{
    assert(views(s.push(c)) =~= views(s).push(conflict_view(c)));
}

/// Appends the conflicts that the entries `deps` of `incoming` declare
/// against installed packages.
fn push_dep_hits(out: &mut Vec<ConflictInfo>, incoming: &str, deps: &Vec<Depend>, local: &Vec<DbPackage>)
    ensures
        views(final(out)@) == views(old(out)@) + dep_hits(incoming@, deps@, local@),
{
    let mut k: usize = 0;
    assert(deps@.take(0) =~= Seq::<Depend>::empty());
    assert(views(out@) =~= views(out@) + dep_hits(incoming@, deps@.take(0), local@));
    let ghost start = views(out@);
    while k < deps.len()
        invariant
            k <= deps.len(),
            views(out@) == start + dep_hits(incoming@, deps@.take(k as int), local@),
        decreases deps.len() - k,
    {
        let d = &deps[k];
        assert(deps@.take(k + 1).drop_last() =~= deps@.take(k as int));
        assert(deps@.take(k + 1).last() == *d);
        match find_pkg_exec(local, d.name.as_str()) {
            Some(i) => {
                let c = ConflictInfo {
                    incoming_pkg: incoming.to_string(),
                    installed_pkg: local[i].name.clone(),
                    constraint: dep_constraint_exec(d),
                };
                proof {
                    lemma_views_push(out@, c);
                }
                out.push(c);
            },
            None => {},
        }
        k = k + 1;
    }
    assert(deps@.take(k as int) =~= deps@);
}

/// `s` split where `op` first occurs: what precedes it, and the rest.
fn split_at_op(cs: &Vec<char>, op: &str) -> (r: Option<(String, String)>)
    ensures
        match r {
            Some((a, b)) => find(cs@, op@) is Some && a@ == cs@.take(find(cs@, op@)->0) && b@
                == cs@.skip(find(cs@, op@)->0),
            None => find(cs@, op@) is None,
        },
{
    let opc = chars_of(op);
    match find_exec(cs.as_slice(), opc.as_slice()) {
        Some(idx) => {
            let a = string_of(slice_range(cs.as_slice(), 0, idx).as_slice());
            let b = string_of(slice_range(cs.as_slice(), idx, cs.len()).as_slice());
            assert(a@ =~= cs@.take(idx as int));
            assert(b@ =~= cs@.skip(idx as int));
            Some((a, b))
        },
        None => None,
    }
}

/// Splits a conflict entry of an AUR package at its first comparison
/// operator, tried in the order `<=`, `>=`, `==`, `<`, `>`, `=`.
pub fn split_conflict_constraint(s: &str) -> (r: (String, Option<String>))
    ensures
        r.0@ == split_constraint(s@).0,
        opt_view(r.1) == split_constraint(s@).1,
{
    let cs = chars_of(s);
    if let Some((a, b)) = split_at_op(&cs, "<=") {
        return (a, Some(b));
    }
    if let Some((a, b)) = split_at_op(&cs, ">=") {
        return (a, Some(b));
    }
    if let Some((a, b)) = split_at_op(&cs, "==") {
        return (a, Some(b));
    }
    if let Some((a, b)) = split_at_op(&cs, "<") {
        return (a, Some(b));
    }
    if let Some((a, b)) = split_at_op(&cs, ">") {
        return (a, Some(b));
    }
    if let Some((a, b)) = split_at_op(&cs, "=") {
        return (a, Some(b));
    }
    (s.to_string(), None)
}

fn push_aur_entry_hits(out: &mut Vec<ConflictInfo>, pkg: &str, list: &Vec<String>, local: &Vec<DbPackage>)
    ensures
        views(final(out)@) == views(old(out)@) + aur_entry_hits(pkg@, list@, local@),
{
    let mut k: usize = 0;
    assert(list@.take(0) =~= Seq::<String>::empty());
    let ghost start = views(out@);
    assert(views(out@) =~= start + aur_entry_hits(pkg@, list@.take(0), local@));
    while k < list.len()
        invariant
            k <= list.len(),
            views(out@) == start + aur_entry_hits(pkg@, list@.take(k as int), local@),
        decreases list.len() - k,
    {
        assert(list@.take(k + 1).drop_last() =~= list@.take(k as int));
        assert(list@.take(k + 1).last() == list@[k as int]);
        let (name, value) = split_conflict_constraint(list[k].as_str());
        match find_pkg_exec(local, name.as_str()) {
            Some(i) => {
                let c = ConflictInfo {
                    incoming_pkg: pkg.to_string(),
                    installed_pkg: local[i].name.clone(),
                    constraint: value,
                };
                proof {
                    lemma_views_push(out@, c);
                }
                out.push(c);
            },
            None => {},
        }
        k = k + 1;
    }
    assert(list@.take(k as int) =~= list@);
}

fn is_requested_exec(name: &str, native: &Vec<String>, aur: &Vec<(String, Vec<String>)>) -> (r: bool)
    ensures
        r == is_requested(name@, native@, aur@),
{
    let mut k: usize = 0;
    while k < native.len()
        invariant
            k <= native.len(),
            forall|i: int| 0 <= i < k ==> (#[trigger] native@[i])@ != name@,
        decreases native.len() - k,
    {
        if str_eq(native[k].as_str(), name) {
            return true;
        }
        k = k + 1;
    }
    let mut m: usize = 0;
    while m < aur.len()
        invariant
            m <= aur.len(),
            forall|i: int| 0 <= i < native.len() ==> (#[trigger] native@[i])@ != name@,
            forall|i: int| 0 <= i < m ==> (#[trigger] aur@[i]).0@ != name@,
        decreases aur.len() - m,
    {
        if str_eq(aur[m].0.as_str(), name) {
            return true;
        }
        m = m + 1;
    }
    false
}

fn push_local_dep_hits(
    out: &mut Vec<ConflictInfo>,
    installed: &str,
    deps: &Vec<Depend>,
    native: &Vec<String>,
    aur: &Vec<(String, Vec<String>)>,
)
    ensures
        views(final(out)@) == views(old(out)@) + local_dep_hits(installed@, deps@, native@, aur@),
{
    let mut k: usize = 0;
    assert(deps@.take(0) =~= Seq::<Depend>::empty());
    let ghost start = views(out@);
    assert(views(out@) =~= start + local_dep_hits(installed@, deps@.take(0), native@, aur@));
    while k < deps.len()
        invariant
            k <= deps.len(),
            views(out@) == start + local_dep_hits(installed@, deps@.take(k as int), native@, aur@),
        decreases deps.len() - k,
    {
        let d = &deps[k];
        assert(deps@.take(k + 1).drop_last() =~= deps@.take(k as int));
        assert(deps@.take(k + 1).last() == *d);
        if is_requested_exec(d.name.as_str(), native, aur) {
            let c = ConflictInfo {
                incoming_pkg: d.name.clone(),
                installed_pkg: installed.to_string(),
                constraint: dep_constraint_exec(d),
            };
            proof {
                lemma_views_push(out@, c);
            }
            out.push(c);
        }
        k = k + 1;
    }
    assert(deps@.take(k as int) =~= deps@);
}

/// Every conflict found, in the order in which the databases are walked.
fn collect_conflicts(
    native: &Vec<String>,
    aur: &Vec<(String, Vec<String>)>,
    sync_dbs: &Vec<Vec<DbPackage>>,
    local: &Vec<DbPackage>,
) -> (r: Vec<ConflictInfo>)
    ensures
        views(r@) == all_hits(native@, aur@, sync_dbs@, local@),
{
    let mut out: Vec<ConflictInfo> = Vec::new();
    assert(views(out@) =~= Seq::<(Seq<char>, Seq<char>, Option<Seq<char>>)>::empty());
    let mut k: usize = 0;
    assert(native@.take(0) =~= Seq::<String>::empty());
    while k < native.len()
        invariant
            k <= native.len(),
            views(out@) == native_hits(native@.take(k as int), sync_dbs@, local@),
        decreases native.len() - k,
    {
        assert(native@.take(k + 1).drop_last() =~= native@.take(k as int));
        assert(native@.take(k + 1).last() == native@[k as int]);
        let t = native[k].as_str();
        match sync_lookup_exec(sync_dbs, t) {
            Some((j, i)) => {
                push_dep_hits(&mut out, t, &sync_dbs[j][i].conflicts, local);
            },
            None => {
                assert(views(out@) =~= views(out@) + Seq::<
                    (Seq<char>, Seq<char>, Option<Seq<char>>),
                >::empty());
            },
        }
        k = k + 1;
    }
    assert(native@.take(k as int) =~= native@);
    let ghost part1 = views(out@);
    let mut m: usize = 0;
    assert(aur@.take(0) =~= Seq::<(String, Vec<String>)>::empty());
    assert(part1 =~= part1 + aur_hits(aur@.take(0), local@));
    while m < aur.len()
        invariant
            m <= aur.len(),
            views(out@) == part1 + aur_hits(aur@.take(m as int), local@),
        decreases aur.len() - m,
    {
        assert(aur@.take(m + 1).drop_last() =~= aur@.take(m as int));
        assert(aur@.take(m + 1).last() == aur@[m as int]);
        let ghost before = views(out@);
        push_aur_entry_hits(&mut out, aur[m].0.as_str(), &aur[m].1, local);
        assert(views(out@) =~= part1 + aur_hits(aur@.take(m + 1), local@));
        m = m + 1;
    }
    assert(aur@.take(m as int) =~= aur@);
    let ghost part2 = views(out@);
    let mut n: usize = 0;
    assert(local@.take(0) =~= Seq::<DbPackage>::empty());
    assert(part2 =~= part2 + local_hits(local@.take(0), native@, aur@));
    while n < local.len()
        invariant
            n <= local.len(),
            views(out@) == part2 + local_hits(local@.take(n as int), native@, aur@),
        decreases local.len() - n,
    {
        assert(local@.take(n + 1).drop_last() =~= local@.take(n as int));
        assert(local@.take(n + 1).last() == local@[n as int]);
        push_local_dep_hits(&mut out, local[n].name.as_str(), &local[n].conflicts, native, aur);
        assert(views(out@) =~= part2 + local_hits(local@.take(n + 1), native@, aur@));
        n = n + 1;
    }
    assert(local@.take(n as int) =~= local@);
    out
}

/// Strictly increasing in the conflict order: sorted, with no repeats.
pub open spec fn strictly_sorted(s: Seq<(Seq<char>, Seq<char>, Option<Seq<char>>)>) -> bool {
    forall|i: int, j: int|
        0 <= i < j < s.len() ==> conflict_le(#[trigger] s[i], #[trigger] s[j]) && s[i] != s[j]
}

/// Sorts conflicts and drops repeated ones.
pub fn sort_dedup_conflicts(v: Vec<ConflictInfo>) -> (r: Vec<ConflictInfo>)
    ensures
        strictly_sorted(views(r@)),
        forall|x| views(r@).contains(x) <==> views(v@).contains(x),
{
    let ghost orig = v@;
    let sorted = sort_by(v, &ConflictOrder);
    let ghost ord = ConflictOrder;
    let mut out: Vec<ConflictInfo> = Vec::new();
    let mut k: usize = 0;
    while k < sorted.len()
        invariant
            k <= sorted.len(),
            sorted_by(&ord, sorted@),
            strictly_sorted(views(out@)),
            out.len() > 0 <==> k > 0,
            k > 0 ==> conflict_view(out@.last()) == conflict_view(sorted@[k - 1]),
            forall|i: int| 0 <= i < k ==> views(out@).contains(conflict_view(#[trigger] sorted@[i])),
            forall|x| views(out@).contains(x) ==> views(sorted@.take(k as int)).contains(x),
        decreases sorted.len() - k,
    {
        let ghost o0 = out@;
        let ghost x = conflict_view(sorted@[k as int]);
        let keep = if out.len() == 0 {
            true
        } else {
            let last = out.len() - 1;
            ConflictOrder.le_exec(&sorted[k], &out[last]) == false || !ConflictOrder.le_exec(
                &out[last],
                &sorted[k],
            )
        };
        proof {
            if k > 0 {
                assert(ord.le(sorted@[k - 1], sorted@[k as int]));
                lemma_conflict_order(conflict_view(o0.last()), x, x);
            }
        }
        if keep {
            let c = clone_conflict(&sorted[k]);
            proof {
                lemma_views_push(o0, c);
            }
            out.push(c);
            proof {
                assert forall|i: int, j: int| 0 <= i < j < views(out@).len() implies conflict_le(
                    #[trigger] views(out@)[i],
                    #[trigger] views(out@)[j],
                ) && views(out@)[i] != views(out@)[j] by {
                    if j == views(out@).len() - 1 && i < j {
                        let a = views(o0)[i];
                        let l = views(o0).last();
                        if i < views(o0).len() - 1 {
                            lemma_conflict_order(a, l, x);
                            lemma_conflict_order(x, a, l);
                        }
                    }
                }
            }
        } else {
            proof {
                lemma_conflict_order(conflict_view(o0.last()), x, x);
                assert(views(o0).contains(x)) by {
                    assert(views(o0)[views(o0).len() - 1] == x);
                }
            }
        }
        proof {
            assert(sorted@.take(k + 1) =~= sorted@.take(k as int).push(sorted@[k as int]));
            assert forall|y| views(out@).contains(y) implies views(sorted@.take(k + 1)).contains(
                y,
            ) by {
                if views(o0).contains(y) {
                    let i = choose|i: int| 0 <= i < views(sorted@.take(k as int)).len() && views(
                        sorted@.take(k as int),
                    )[i] == y;
                    assert(views(sorted@.take(k + 1))[i] == y);
                } else {
                    assert(views(sorted@.take(k + 1))[k as int] == y);
                }
            }
            assert forall|i: int| 0 <= i < k + 1 implies views(out@).contains(
                conflict_view(#[trigger] sorted@[i]),
            ) by {
                if i < k {
                    assert(views(o0).contains(conflict_view(sorted@[i])));
                    let m = choose|m: int| 0 <= m < views(o0).len() && views(o0)[m] == conflict_view(
                        sorted@[i],
                    );
                    assert(views(out@)[m] == views(o0)[m]);
                } else {
                    assert(views(out@)[views(out@).len() - 1] == x);
                }
            }
        }
        k = k + 1;
    }
    proof {
        assert(sorted@.take(k as int) =~= sorted@);
        assert forall|y| views(out@).contains(y) <==> views(orig).contains(y) by {
            if views(out@).contains(y) {
                let i = choose|i: int| 0 <= i < views(sorted@).len() && views(sorted@)[i] == y;
                assert(sorted@.contains(sorted@[i]));
                assert(orig.to_multiset().count(sorted@[i]) > 0);
                let m = choose|m: int| 0 <= m < orig.len() && orig[m] == sorted@[i];
                assert(views(orig)[m] == y);
            }
            if views(orig).contains(y) {
                let m = choose|m: int| 0 <= m < views(orig).len() && views(orig)[m] == y;
                assert(orig.contains(orig[m]));
                assert(sorted@.to_multiset().count(orig[m]) > 0);
                let i = choose|i: int| 0 <= i < sorted@.len() && sorted@[i] == orig[m];
                assert(views(out@).contains(conflict_view(sorted@[i])));
            }
        }
    }
    out
}

/// The conflicts between the packages about to be installed (`native_pkgs`
/// from the repositories, `aur_conflicts` naming each AUR package with its
/// conflict entries) and the installed packages `local`, looked up in the
/// sync databases `sync_dbs` in order: sorted, each listed once.
pub fn detect_conflicts(
    sync_dbs: &Vec<Vec<DbPackage>>,
    local: &Vec<DbPackage>,
    native_pkgs: &Vec<String>,
    aur_conflicts: &Vec<(String, Vec<String>)>,
) -> (r: Vec<ConflictInfo>)
    ensures
        strictly_sorted(views(r@)),
        forall|x|
            views(r@).contains(x) <==> all_hits(native_pkgs@, aur_conflicts@, sync_dbs@, local@).contains(x),
{
    let raw = collect_conflicts(native_pkgs, aur_conflicts, sync_dbs, local);
    sort_dedup_conflicts(raw)
}

proof fn lemma_local_dep_hit(
    installed: Seq<char>,
    deps: Seq<Depend>,
    native: Seq<String>,
    aur: Seq<(String, Vec<String>)>,
    d: int,
)
    requires
        0 <= d < deps.len(),
        is_requested(deps[d].name@, native, aur),
    ensures
        local_dep_hits(installed, deps, native, aur).contains(
            (deps[d].name@, installed, dep_constraint(deps[d])),
        ),
    decreases deps.len(),
{
    let rest = local_dep_hits(installed, deps.drop_last(), native, aur);
    if d == deps.len() - 1 {
        assert(local_dep_hits(installed, deps, native, aur) == rest.push(
            (deps[d].name@, installed, dep_constraint(deps[d])),
        ));
        assert(rest.push((deps[d].name@, installed, dep_constraint(deps[d])))[rest.len() as int] == (
        deps[d].name@, installed, dep_constraint(deps[d])));
    } else {
        assert(deps.drop_last()[d] == deps[d]);
        lemma_local_dep_hit(installed, deps.drop_last(), native, aur, d);
        let x = (deps[d].name@, installed, dep_constraint(deps[d]));
        let i = choose|i: int| 0 <= i < rest.len() && rest[i] == x;
        if is_requested(deps.last().name@, native, aur) {
            assert(rest.push((deps.last().name@, installed, dep_constraint(deps.last())))[i] == x);
        }
    }
}

proof fn lemma_local_hit(
    local: Seq<DbPackage>,
    native: Seq<String>,
    aur: Seq<(String, Vec<String>)>,
    p: int,
    d: int,
)
    requires
        0 <= p < local.len(),
        0 <= d < local[p].conflicts@.len(),
        is_requested(local[p].conflicts@[d].name@, native, aur),
    ensures
        local_hits(local, native, aur).contains(
            (
                local[p].conflicts@[d].name@,
                local[p].name@,
                dep_constraint(local[p].conflicts@[d]),
            ),
        ),
    decreases local.len(),
{
    let x = (local[p].conflicts@[d].name@, local[p].name@, dep_constraint(local[p].conflicts@[d]));
    let front = local_hits(local.drop_last(), native, aur);
    let back = local_dep_hits(local.last().name@, local.last().conflicts@, native, aur);
    assert(local_hits(local, native, aur) == front + back);
    if p == local.len() - 1 {
        lemma_local_dep_hit(local[p].name@, local[p].conflicts@, native, aur, d);
        let i = choose|i: int| 0 <= i < back.len() && back[i] == x;
        assert((front + back)[front.len() + i] == x);
    } else {
        assert(local.drop_last()[p] == local[p]);
        lemma_local_hit(local.drop_last(), native, aur, p, d);
        let i = choose|i: int| 0 <= i < front.len() && front[i] == x;
        assert((front + back)[i] == x);
    }
}

/// An installed package that declares a conflict with a package about to
/// be installed (from the repositories or from the AUR) is reported:
/// `detect_conflicts` lists the requested package, the installed one and
/// the constraint of the declaration.
pub proof fn law_installed_conflicts_reported(
    sync_dbs: Seq<Vec<DbPackage>>,
    local: Seq<DbPackage>,
    native: Seq<String>,
    aur: Seq<(String, Vec<String>)>,
    p: int,
    d: int,
)
    requires
        0 <= p < local.len(),
        0 <= d < local[p].conflicts@.len(),
        (exists|i: int| 0 <= i < native.len() && native[i]@ == local[p].conflicts@[d].name@) || (
        exists|j: int| 0 <= j < aur.len() && aur[j].0@ == local[p].conflicts@[d].name@),
    ensures
        all_hits(native, aur, sync_dbs, local).contains(
            (
                local[p].conflicts@[d].name@,
                local[p].name@,
                dep_constraint(local[p].conflicts@[d]),
            ),
        ),
{
    let x = (local[p].conflicts@[d].name@, local[p].name@, dep_constraint(local[p].conflicts@[d]));
    lemma_local_hit(local, native, aur, p, d);
    let a = native_hits(native, sync_dbs, local) + aur_hits(aur, local);
    let b = local_hits(local, native, aur);
    let i = choose|i: int| 0 <= i < b.len() && b[i] == x;
    assert((a + b)[a.len() + i] == x);
}

proof fn lemma_find_pkg_found(db: Seq<DbPackage>, name: Seq<char>, k: int, i: int)
    requires
        0 <= k <= i < db.len(),
        db[i].name@ == name,
    ensures
        find_pkg_from(db, name, k) matches Some(x) && 0 <= x < db.len() && db[x].name@ == name,
    decreases db.len() - k,
{
    if db[k].name@ != name {
        lemma_find_pkg_found(db, name, k + 1, i);
    }
}

proof fn lemma_dep_hit(incoming: Seq<char>, deps: Seq<Depend>, local: Seq<DbPackage>, d: int, i: int)
    requires
        0 <= d < deps.len(),
        0 <= i < local.len(),
        local[i].name@ == deps[d].name@,
    ensures
        dep_hits(incoming, deps, local).contains((incoming, deps[d].name@, dep_constraint(deps[d]))),
    decreases deps.len(),
{
    let x = (incoming, deps[d].name@, dep_constraint(deps[d]));
    let rest = dep_hits(incoming, deps.drop_last(), local);
    if d == deps.len() - 1 {
        lemma_find_pkg_found(local, deps[d].name@, 0, i);
        assert(rest.push(x)[rest.len() as int] == x);
    } else {
        assert(deps.drop_last()[d] == deps[d]);
        lemma_dep_hit(incoming, deps.drop_last(), local, d, i);
        let k = choose|k: int| 0 <= k < rest.len() && rest[k] == x;
        match find_pkg(local, deps.last().name@) {
            Some(m) => assert(rest.push((incoming, local[m].name@, dep_constraint(deps.last())))[k] == x),
            None => {},
        }
    }
}

proof fn lemma_native_hit(
    native: Seq<String>,
    dbs: Seq<Vec<DbPackage>>,
    local: Seq<DbPackage>,
    n: int,
    x: (Seq<char>, Seq<char>, Option<Seq<char>>),
)
    requires
        0 <= n < native.len(),
        sync_lookup(dbs, native[n]@, 0) matches Some((j, k)) && dep_hits(
            native[n]@,
            dbs[j]@[k].conflicts@,
            local,
        ).contains(x),
    ensures
        native_hits(native, dbs, local).contains(x),
    decreases native.len(),
{
    let front = native_hits(native.drop_last(), dbs, local);
    let t = native.last()@;
    let back = match sync_lookup(dbs, t, 0) {
        Some((j, i)) => dep_hits(t, dbs[j]@[i].conflicts@, local),
        None => seq![],
    };
    assert(native_hits(native, dbs, local) == front + back);
    if n == native.len() - 1 {
        let i = choose|i: int| 0 <= i < back.len() && back[i] == x;
        assert((front + back)[front.len() + i] == x);
    } else {
        assert(native.drop_last()[n] == native[n]);
        lemma_native_hit(native.drop_last(), dbs, local, n, x);
        let i = choose|i: int| 0 <= i < front.len() && front[i] == x;
        assert((front + back)[i] == x);
    }
}

/// A repository package about to be installed that declares a conflict
/// with an installed package is reported: its entry in the first sync
/// database that holds it names a package that is installed, and
/// `detect_conflicts` lists the requested package, the installed one and
/// the constraint of the declaration.
pub proof fn law_repository_conflicts_reported(
    sync_dbs: Seq<Vec<DbPackage>>,
    local: Seq<DbPackage>,
    native: Seq<String>,
    aur: Seq<(String, Vec<String>)>,
    n: int,
    d: int,
    i: int,
)
    requires
        0 <= n < native.len(),
        sync_lookup(sync_dbs, native[n]@, 0) matches Some((j, k)) && 0 <= d
            < sync_dbs[j]@[k].conflicts@.len() && 0 <= i < local.len() && local[i].name@
            == sync_dbs[j]@[k].conflicts@[d].name@,
    ensures
        sync_lookup(sync_dbs, native[n]@, 0) matches Some((j, k)) && all_hits(
            native,
            aur,
            sync_dbs,
            local,
        ).contains(
            (
                native[n]@,
                sync_dbs[j]@[k].conflicts@[d].name@,
                dep_constraint(sync_dbs[j]@[k].conflicts@[d]),
            ),
        ),
{
    let (j, k) = sync_lookup(sync_dbs, native[n]@, 0)->0;
    let dep = sync_dbs[j]@[k].conflicts@[d];
    let x = (native[n]@, dep.name@, dep_constraint(dep));
    lemma_dep_hit(native[n]@, sync_dbs[j]@[k].conflicts@, local, d, i);
    lemma_native_hit(native, sync_dbs, local, n, x);
    let a = native_hits(native, sync_dbs, local);
    let b = aur_hits(aur, local) + local_hits(local, native, aur);
    let m = choose|m: int| 0 <= m < a.len() && a[m] == x;
    assert((a + b)[m] == x);
    assert(all_hits(native, aur, sync_dbs, local) == a + b);
}

proof fn lemma_aur_entry_hit(pkg: Seq<char>, list: Seq<String>, local: Seq<DbPackage>, e: int, i: int)
    requires
        0 <= e < list.len(),
        0 <= i < local.len(),
        local[i].name@ == split_constraint(list[e]@).0,
    ensures
        aur_entry_hits(pkg, list, local).contains(
            (pkg, split_constraint(list[e]@).0, split_constraint(list[e]@).1),
        ),
    decreases list.len(),
{
    let x = (pkg, split_constraint(list[e]@).0, split_constraint(list[e]@).1);
    let rest = aur_entry_hits(pkg, list.drop_last(), local);
    if e == list.len() - 1 {
        lemma_find_pkg_found(local, split_constraint(list[e]@).0, 0, i);
        assert(rest.push(x)[rest.len() as int] == x);
    } else {
        assert(list.drop_last()[e] == list[e]);
        lemma_aur_entry_hit(pkg, list.drop_last(), local, e, i);
        let k = choose|k: int| 0 <= k < rest.len() && rest[k] == x;
        let (name, value) = split_constraint(list.last()@);
        match find_pkg(local, name) {
            Some(m) => assert(rest.push((pkg, local[m].name@, value))[k] == x),
            None => {},
        }
    }
}

proof fn lemma_aur_hit(
    aur: Seq<(String, Vec<String>)>,
    local: Seq<DbPackage>,
    a: int,
    x: (Seq<char>, Seq<char>, Option<Seq<char>>),
)
    requires
        0 <= a < aur.len(),
        aur_entry_hits(aur[a].0@, aur[a].1@, local).contains(x),
    ensures
        aur_hits(aur, local).contains(x),
    decreases aur.len(),
{
    let front = aur_hits(aur.drop_last(), local);
    let back = aur_entry_hits(aur.last().0@, aur.last().1@, local);
    assert(aur_hits(aur, local) == front + back);
    if a == aur.len() - 1 {
        let i = choose|i: int| 0 <= i < back.len() && back[i] == x;
        assert((front + back)[front.len() + i] == x);
    } else {
        assert(aur.drop_last()[a] == aur[a]);
        lemma_aur_hit(aur.drop_last(), local, a, x);
        let i = choose|i: int| 0 <= i < front.len() && front[i] == x;
        assert((front + back)[i] == x);
    }
}

proof fn lemma_no_char_no_find(s: Seq<char>, c: char, p: Seq<char>)
    requires
        p.len() > 0,
        p[0] == c,
        forall|k: int| 0 <= k < s.len() ==> s[k] != c,
    ensures
        find(s, p) is None,
{
    lemma_find_from(s, p, 0);
    if find(s, p) is Some {
        let i = find(s, p)->0;
        assert(s.subrange(i, i + p.len())[0] == s[i]);
    }
}

/// An AUR package about to be installed whose conflict entry names an
/// installed package is reported with the part of the entry from its
/// first comparison operator on as the constraint; an entry that holds no
/// `<`, `>` or `=` is a plain name and gives no constraint.
pub proof fn law_aur_conflicts_reported(
    sync_dbs: Seq<Vec<DbPackage>>,
    local: Seq<DbPackage>,
    native: Seq<String>,
    aur: Seq<(String, Vec<String>)>,
    a: int,
    e: int,
    i: int,
)
    requires
        0 <= a < aur.len(),
        0 <= e < aur[a].1@.len(),
        0 <= i < local.len(),
        local[i].name@ == split_constraint(aur[a].1@[e]@).0,
    ensures
        all_hits(native, aur, sync_dbs, local).contains(
            (aur[a].0@, split_constraint(aur[a].1@[e]@).0, split_constraint(aur[a].1@[e]@).1),
        ),
        (forall|c: int|
            0 <= c < aur[a].1@[e]@.len() ==> aur[a].1@[e]@[c] != '<' && aur[a].1@[e]@[c] != '>'
                && aur[a].1@[e]@[c] != '=') ==> split_constraint(aur[a].1@[e]@) == (
            aur[a].1@[e]@,
            None::<Seq<char>>,
        ),
{
    let s = aur[a].1@[e]@;
    let x = (aur[a].0@, split_constraint(s).0, split_constraint(s).1);
    lemma_aur_entry_hit(aur[a].0@, aur[a].1@, local, e, i);
    lemma_aur_hit(aur, local, a, x);
    let p = native_hits(native, sync_dbs, local);
    let q = aur_hits(aur, local);
    let r = local_hits(local, native, aur);
    let m = choose|m: int| 0 <= m < q.len() && q[m] == x;
    assert((p + q + r)[p.len() + m] == x);
    if forall|c: int| 0 <= c < s.len() ==> s[c] != '<' && s[c] != '>' && s[c] != '=' {
        reveal_strlit("<=");
        reveal_strlit(">=");
        reveal_strlit("==");
        reveal_strlit("<");
        reveal_strlit(">");
        reveal_strlit("=");
        lemma_no_char_no_find(s, '<', "<="@);
        lemma_no_char_no_find(s, '>', ">="@);
        lemma_no_char_no_find(s, '=', "=="@);
        lemma_no_char_no_find(s, '<', "<"@);
        lemma_no_char_no_find(s, '>', ">"@);
        lemma_no_char_no_find(s, '=', "="@);
    }
}

/// The question asked before an installed package is replaced.
pub open spec fn conflict_prompt(c: ConflictInfo) -> Seq<char> {
    "replace installed package '"@ + c.installed_pkg@ + "' with '"@ + c.incoming_pkg@
        + "'? [y/N]"@
}

pub open spec fn noconfirm_refusal() -> Seq<char> {
    "conflicting packages detected and --noconfirm used without explicit authorization. aborting."@
}

pub open spec fn declined_text() -> Seq<char> {
    "aborted: no changes were made."@
}

/// The question asked before `c.installed_pkg` is replaced by
/// `c.incoming_pkg`.
pub fn conflict_prompt_text(c: &ConflictInfo) -> (r: String)
    ensures
        r@ == conflict_prompt(*c),
{
    "replace installed package '".to_string().concat(c.installed_pkg.as_str()).concat(
        "' with '",
    ).concat(c.incoming_pkg.as_str()).concat("'? [y/N]")
}

/// `prompter` may answer `answer` to the question about the conflict `c`.
pub open spec fn asked<F: FnMut(&str) -> bool>(prompter: F, c: ConflictInfo, answer: bool) -> bool {
    exists|p: &str| p@ == conflict_prompt(c) && call_ensures(prompter, (p,), answer)
}

/// The user answered `answers` to the questions of `prompter` about the
/// conflicts, in order, stopping at the first refusal, and `r` is the
/// outcome: `Ok(true)` when every conflict was accepted, else the refusal.
pub open spec fn prompt_trace<F: FnMut(&str) -> bool>(
    conflicts: Seq<ConflictInfo>,
    prompter: F,
    answers: Seq<bool>,
    r: Result<bool, &'static str>,
) -> bool {
    &&& 0 < answers.len() <= conflicts.len()
    &&& forall|k: int| 0 <= k < answers.len() - 1 ==> #[trigger] answers[k]
    &&& forall|k: int| 0 <= k < answers.len() ==> asked(prompter, conflicts[k], #[trigger] answers[k])
    &&& if answers.last() {
        answers.len() == conflicts.len() && r == Ok::<bool, &'static str>(true)
    } else {
        r matches Err(e) && e@ == declined_text()
    }
}

/// Decides whether an installation with conflicts goes on. With no
/// conflict there is nothing to replace (`Ok(false)`); a dry run goes on
/// without asking; `--noconfirm` refuses; otherwise `prompter` is asked,
/// conflict by conflict, whether to replace the installed package, and the
/// first refusal aborts.
pub fn handle_conflicts_ui<F: FnMut(&str) -> bool>(
    conflicts: &[ConflictInfo],
    dry_run: bool,
    noconfirm: bool,
    prompter: F,
) -> (r: Result<bool, &'static str>)
    requires
        forall|s: &str| call_requires(prompter, (s,)),
    ensures
        conflicts@.len() == 0 ==> r == Ok::<bool, &'static str>(false),
        conflicts@.len() > 0 && dry_run ==> r == Ok::<bool, &'static str>(true),
        conflicts@.len() > 0 && !dry_run && noconfirm ==> (r matches Err(e) && e@
            == noconfirm_refusal()),
        conflicts@.len() > 0 && !dry_run && !noconfirm ==> exists|answers: Seq<bool>|
            #[trigger] prompt_trace(conflicts@, prompter, answers, r),
{
    proof {
        reveal_strlit("aborted: no changes were made.");
        reveal_strlit(
            "conflicting packages detected and --noconfirm used without explicit authorization. aborting.",
        );
    }
    let mut ask = prompter;
    if conflicts.len() == 0 {
        return Ok(false);
    }
    if dry_run {
        return Ok(true);
    }
    if noconfirm {
        return Err(
            "conflicting packages detected and --noconfirm used without explicit authorization. aborting.",
        );
    }
    let ghost mut answers: Seq<bool> = Seq::empty();
    let ghost orig = ask;
    let mut i: usize = 0;
    while i < conflicts.len()
        invariant
            i <= conflicts.len(),
            conflicts@.len() > 0,
            !dry_run,
            !noconfirm,
            ask == orig,
            orig == prompter,
            forall|s: &str| call_requires(orig, (s,)),
            answers.len() == i,
            forall|k: int| 0 <= k < i ==> #[trigger] answers[k],
            forall|k: int| 0 <= k < i ==> asked(orig, conflicts@[k], #[trigger] answers[k]),
        decreases conflicts.len() - i,
    {
        let prompt = conflict_prompt_text(&conflicts[i]);
        let p = prompt.as_str();
        let ok = ask(p);
        assert(call_ensures(orig, (p,), ok));
        assert(ask == orig);
        proof {
            let ghost a0 = answers;
            answers = answers.push(ok);
            assert(answers[i as int] == ok);
            assert forall|k: int| 0 <= k < i + 1 implies asked(orig, conflicts@[k], #[trigger] answers[k]) by {
                if k < i {
                    assert(answers[k] == a0[k]);
                } else {
                    assert(p@ == conflict_prompt(conflicts@[k]));
                }
            }
        }
        if !ok {
            let r = Err("aborted: no changes were made.");
            assert(prompt_trace(conflicts@, orig, answers, r));
            return r;
        }
        i = i + 1;
    }
    let r = Ok(true);
    assert(prompt_trace(conflicts@, orig, answers, r));
    r
}

} // verus!
