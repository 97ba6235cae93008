//! The packages that a user marks in the browser, and the targets that an
//! install or a removal then acts on.
use vstd::prelude::*;
use crate::browser::{PackageInfo, SelectionMode};
use crate::pacman_log::strings_view;
use crate::text::{chars_of, seq_eq};

verus! {

/// A set of package names.
pub struct NameSet {
    items: Vec<String>,
}

impl View for NameSet {
    type V = Set<Seq<char>>;

    closed spec fn view(&self) -> Set<Seq<char>> {
        strings_view(self.items@).to_set()
    }
}

impl NameSet {
    /// No name is kept twice.
    pub closed spec fn wf(&self) -> bool {
        strings_view(self.items@).no_duplicates()
    }

    pub closed spec fn len_spec(&self) -> nat {
        self.items@.len()
    }

    /// The names, each once, in the order they were added.
    pub closed spec fn ordered(&self) -> Seq<Seq<char>> {
        strings_view(self.items@)
    }

    pub fn new() -> (r: NameSet)
        ensures
            r.wf(),
            r@ == Set::<Seq<char>>::empty(),
            r.len_spec() == 0,
    {
        let v: Vec<String> = Vec::new();
        let r = NameSet { items: v };
        assert(strings_view(r.items@) =~= Seq::<Seq<char>>::empty());
        assert(r@ =~= Set::<Seq<char>>::empty());
        r
    }

    /// How many names the set holds.
    pub fn len(&self) -> (n: usize)
        requires
            self.wf(),
        ensures
            n == self.len_spec(),
            n == self@.len(),
    {
        proof {
            strings_view(self.items@).unique_seq_to_set();
        }
        self.items.len()
    }

    pub fn is_empty(&self) -> (b: bool)
        requires
            self.wf(),
        ensures
            b == (self@.len() == 0),
    {
        self.len() == 0
    }

    fn position(&self, name: &str) -> (r: Option<usize>)
        ensures
            match r {
                Some(i) => i < self.items@.len() && self.items@[i as int]@ == name@,
                None => !self@.contains(name@),
            },
    {
        let n = chars_of(name);
        let mut k: usize = 0;
        while k < self.items.len()
            invariant
                k <= self.items.len(),
                n@ == name@,
                forall|j: int| 0 <= j < k ==> self.items@[j]@ != name@,
            decreases self.items.len() - k,
        {
            if seq_eq(chars_of(self.items[k].as_str()).as_slice(), n.as_slice()) {
                return Some(k);
            }
            k = k + 1;
        }
        proof {
            if strings_view(self.items@).to_set().contains(name@) {
                let j = choose|j: int|
                    0 <= j < strings_view(self.items@).len() && strings_view(self.items@)[j]
                        == name@;
                assert(self.items@[j]@ == name@);
            }
        }
        None
    }

    pub fn contains(&self, name: &str) -> (b: bool)
        ensures
            b == self@.contains(name@),
    {
        proof {
            let sv = strings_view(self.items@);
            assert forall|i: int| 0 <= i < sv.len() implies sv.to_set().contains(sv[i]) by {
                assert(sv.contains(sv[i]));
            }
        }
        match self.position(name) {
            Some(i) => {
                assert(strings_view(self.items@)[i as int] == name@);
                true
            },
            None => false,
        }
    }

    /// Add the name if it is absent, else take it out (what the space key
    /// does to the package under the cursor).
    pub fn toggle(&mut self, name: &str)
        requires
            old(self).wf(),
        ensures
            final(self).wf(),
            old(self)@.contains(name@) ==> final(self)@ == old(self)@.remove(name@),
            !old(self)@.contains(name@) ==> final(self)@ == old(self)@.insert(name@),
    {
        let ghost sv0 = strings_view(self.items@);
        proof {
            assert forall|i: int| 0 <= i < sv0.len() implies sv0.to_set().contains(sv0[i]) by {
                assert(sv0.contains(sv0[i]));
            }
        }
        match self.position(name) {
            Some(i) => {
                self.items.remove(i);
                proof {
                    let sv1 = strings_view(self.items@);
                    assert(sv1 =~= sv0.remove(i as int));
                    assert(sv0[i as int] == name@);
                    assert(sv1.no_duplicates()) by {
                        assert forall|a: int, b: int|
                            0 <= a < sv1.len() && 0 <= b < sv1.len() && a != b implies sv1[a]
                            != sv1[b] by {
                            let a0 = if a < i {
                                a
                            } else {
                                a + 1
                            };
                            let b0 = if b < i {
                                b
                            } else {
                                b + 1
                            };
                            assert(sv1[a] == sv0[a0] && sv1[b] == sv0[b0]);
                        }
                    }
                    assert forall|x: Seq<char>| sv1.to_set().contains(x) <==> (
                    sv0.to_set().contains(x) && x != name@) by {
                        if sv1.to_set().contains(x) {
                            let a = choose|a: int| 0 <= a < sv1.len() && sv1[a] == x;
                            let a0 = if a < i {
                                a
                            } else {
                                a + 1
                            };
                            assert(sv0[a0] == x);
                            assert(sv0.contains(x));
                        }
                        if sv0.to_set().contains(x) && x != name@ {
                            let a0 = choose|a: int| 0 <= a < sv0.len() && sv0[a] == x;
                            assert(a0 != i);
                            let a = if a0 < i {
                                a0
                            } else {
                                a0 - 1
                            };
                            assert(sv1[a] == x);
                            assert(sv1.contains(x));
                        }
                    }
                    assert(self@ =~= sv0.to_set().remove(name@));
                }
            },
            None => {
                self.items.push(name.to_string());
                proof {
                    let sv1 = strings_view(self.items@);
                    assert(sv1 =~= sv0.push(name@));
                    assert(!sv0.contains(name@));
                    assert(sv1.no_duplicates()) by {
                        assert forall|a: int, b: int|
                            0 <= a < sv1.len() && 0 <= b < sv1.len() && a != b implies sv1[a]
                            != sv1[b] by {
                            if a == sv0.len() as int {
                                assert(sv0.contains(sv1[b]));
                            } else if b == sv0.len() as int {
                                assert(sv0.contains(sv1[a]));
                            }
                        }
                    }
                    assert forall|x: Seq<char>| sv1.to_set().contains(x) <==> (
                    sv0.to_set().contains(x) || x == name@) by {
                        if sv1.to_set().contains(x) {
                            let a = choose|a: int| 0 <= a < sv1.len() && sv1[a] == x;
                            if a < sv0.len() {
                                assert(sv0.contains(x));
                            }
                        }
                        if sv0.to_set().contains(x) {
                            let a = choose|a: int| 0 <= a < sv0.len() && sv0[a] == x;
                            assert(sv1[a] == x);
                            assert(sv1.contains(x));
                        }
                        if x == name@ {
                            assert(sv1[sv0.len() as int] == x);
                            assert(sv1.contains(x));
                        }
                    }
                    assert(self@ =~= sv0.to_set().insert(name@));
                }
            },
        }
    }

    /// Add the name; `true` when it was not there yet (what marking a
    /// headline as read does).
    pub fn insert(&mut self, name: &str) -> (added: bool)
        requires
            old(self).wf(),
        ensures
            final(self).wf(),
            added == !old(self)@.contains(name@),
            final(self)@ == old(self)@.insert(name@),
    {
        if self.contains(name) {
            assert(self@.insert(name@) =~= self@);
            false
        } else {
            self.toggle(name);
            true
        }
    }

    /// Forget every name.
    pub fn clear(&mut self)
        ensures
            final(self).wf(),
            final(self)@ == Set::<Seq<char>>::empty(),
    {
        self.items.clear();
        assert(strings_view(self.items@) =~= Seq::<Seq<char>>::empty());
        assert(self@ =~= Set::<Seq<char>>::empty());
    }

    /// The names, each once.
    pub fn to_vec(&self) -> (r: Vec<String>)
        requires
            self.wf(),
        ensures
            strings_view(r@) == self.ordered(),
            strings_view(r@).to_set() == self@,
            strings_view(r@).no_duplicates(),
    {
        let mut out: Vec<String> = Vec::new();
        let mut k: usize = 0;
        while k < self.items.len()
            invariant
                k <= self.items.len(),
                strings_view(out@) == strings_view(self.items@).take(k as int),
            decreases self.items.len() - k,
        {
            let ghost o = out@;
            out.push(self.items[k].clone());
            assert(strings_view(out@) =~= strings_view(o).push(self.items@[k as int]@));
            assert(strings_view(self.items@).take(k + 1) =~= strings_view(self.items@).take(
                k as int,
            ).push(self.items@[k as int]@));
            k = k + 1;
        }
        assert(strings_view(self.items@).take(k as int) =~= strings_view(self.items@));
        out
    }
}

/// How many packages an action would take: the marked ones, or in the
/// all-visible mode the visible ones less those taken out.
pub open spec fn selected_count_spec(
    mode: SelectionMode,
    selected: nat,
    visible: nat,
    deselected: nat,
) -> nat {
    match mode {
        SelectionMode::Explicit => selected,
        SelectionMode::AllVisible => if visible >= deselected {
            (visible - deselected) as nat
        } else {
            0
        },
    }
}

pub fn get_selected_count(
    mode: SelectionMode,
    selected: &NameSet,
    visible: usize,
    deselected: &NameSet,
) -> (n: usize)
    requires
        selected.wf(),
        deselected.wf(),
    ensures
        n == selected_count_spec(mode, selected@.len(), visible as nat, deselected@.len()),
{
    match mode {
        SelectionMode::Explicit => selected.len(),
        SelectionMode::AllVisible => {
            let d = deselected.len();
            if visible >= d {
                visible - d
            } else {
                0
            }
        },
    }
}

/// Whether the browser shows a package as marked.
pub fn is_package_selected(
    mode: SelectionMode,
    selected: &NameSet,
    deselected: &NameSet,
    name: &str,
) -> (b: bool)
    ensures
        b == match mode {
            SelectionMode::Explicit => selected@.contains(name@),
            SelectionMode::AllVisible => !deselected@.contains(name@),
        },
{
    match mode {
        SelectionMode::Explicit => selected.contains(name),
        SelectionMode::AllVisible => !deselected.contains(name),
    }
}

/// The names of the visible packages that are not taken out, in order.
pub open spec fn visible_targets(visible: Seq<PackageInfo>, deselected: Set<Seq<char>>) -> Seq<
    Seq<char>,
>
    decreases visible.len(),
{
    if visible.len() == 0 {
        seq![]
    } else {
        let rest = visible_targets(visible.drop_last(), deselected);
        if deselected.contains(visible.last().name@) {
            rest
        } else {
            rest.push(visible.last().name@)
        }
    }
}

/// The packages that `i` (install) or `r` (remove) act on in the browser:
/// in the explicit mode the marked packages, or the one under the cursor
/// when none is marked; in the all-visible mode every visible package that
/// was not taken out.
pub fn action_targets(
    mode: SelectionMode,
    selected: &NameSet,
    deselected: &NameSet,
    visible: &Vec<PackageInfo>,
    cursor: Option<usize>,
) -> (r: Vec<String>)
    requires
        selected.wf(),
        deselected.wf(),
    ensures
        mode == SelectionMode::Explicit && selected@.len() > 0 ==> strings_view(r@)
            == selected.ordered(),
        mode == SelectionMode::Explicit && selected@.len() == 0 ==> strings_view(r@) == match cursor {
            Some(i) => if i < visible@.len() {
                seq![visible@[i as int].name@]
            } else {
                seq![]
            },
            None => seq![],
        },
        mode == SelectionMode::AllVisible ==> strings_view(r@) == visible_targets(
            visible@,
            deselected@,
        ),
{
    match mode {
        SelectionMode::Explicit => {
            if !selected.is_empty() {
                selected.to_vec()
            } else {
                let mut out: Vec<String> = Vec::new();
                match cursor {
                    Some(i) => {
                        if i < visible.len() {
                            out.push(visible[i].name.clone());
                        }
                    },
                    None => {},
                }
                assert(strings_view(out@) =~= match cursor {
                    Some(i) => if i < visible@.len() {
                        seq![visible@[i as int].name@]
                    } else {
                        seq![]
                    },
                    None => seq![],
                });
                out
            }
        },
        SelectionMode::AllVisible => {
            let mut out: Vec<String> = Vec::new();
            let mut k: usize = 0;
            assert(visible@.take(0) =~= Seq::<PackageInfo>::empty());
            while k < visible.len()
                invariant
                    k <= visible.len(),
                    strings_view(out@) == visible_targets(visible@.take(k as int), deselected@),
                decreases visible.len() - k,
            {
                assert(visible@.take(k + 1).drop_last() =~= visible@.take(k as int));
                if !deselected.contains(visible[k].name.as_str()) {
                    let ghost o = out@;
                    out.push(visible[k].name.clone());
                    assert(strings_view(out@) =~= strings_view(o).push(visible@[k as int].name@));
                }
                k = k + 1;
            }
            assert(visible@.take(k as int) =~= visible@);
            out
        },
    }
}


/// Marking a package twice leaves the marks as they were: what `toggle`
/// adds it takes out again, and what it takes out it puts back.
pub proof fn law_toggle_twice(marks: Set<Seq<char>>, name: Seq<char>)
    ensures
        marks.contains(name) ==> marks.remove(name).insert(name) == marks,
        !marks.contains(name) ==> marks.insert(name).remove(name) == marks,
{
    if marks.contains(name) {
        assert(marks.remove(name).insert(name) =~= marks);
    } else {
        assert(marks.insert(name).remove(name) =~= marks);
    }
}

} // verus!
