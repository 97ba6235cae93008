//! A stable insertion sort over any total preorder, used to order the
//! package list and the package groups.
use vstd::prelude::*;
use vstd::multiset::Multiset;

verus! {

broadcast use vstd::seq_lib::group_to_multiset_ensures;

/// A total preorder on `T` with an executable comparison.
pub trait Preorder<T> {
    spec fn le(&self, a: T, b: T) -> bool;

    proof fn total(&self, a: T, b: T)
        ensures
            self.le(a, b) || self.le(b, a),
    ;

    proof fn transitive(&self, a: T, b: T, c: T)
        requires
            self.le(a, b),
            self.le(b, c),
        ensures
            self.le(a, c),
    ;

    fn le_exec(&self, a: &T, b: &T) -> (r: bool)
        ensures
            r == self.le(*a, *b),
    ;
}

/// Every earlier element is at most every later one.
pub open spec fn sorted_by<T, C: Preorder<T>>(c: &C, s: Seq<T>) -> bool {
    forall|i: int, j: int| 0 <= i < j < s.len() ==> c.le(#[trigger] s[i], #[trigger] s[j])
}

/// `r` holds the elements of `v` in another order: `perm[i]` is the index
/// in `v` of `r[i]`, each index once.
pub open spec fn reorders<T>(v: Seq<T>, r: Seq<T>, perm: Seq<int>) -> bool {
    &&& perm.len() == r.len()
    &&& r.len() == v.len()
    &&& forall|i: int| 0 <= i < r.len() ==> 0 <= #[trigger] perm[i] < v.len() && r[i] == v[perm[i]]
    &&& forall|i: int, j: int| 0 <= i < j < r.len() ==> #[trigger] perm[i] != #[trigger] perm[j]
}

/// Elements that `c` ranks equal keep the order they had.
pub open spec fn ties_kept<T, C: Preorder<T>>(c: &C, r: Seq<T>, perm: Seq<int>) -> bool {
    forall|i: int, j: int|
        0 <= i < j < r.len() && c.le(#[trigger] r[i], #[trigger] r[j]) && c.le(r[j], r[i]) ==> perm[i]
            < perm[j]
}

/// The last elements of `s` in reverse order: `r[i]` is `s[s.len() - 1 - i]`.
pub open spec fn reversed_tail<T>(s: Seq<T>, r: Seq<T>) -> bool {
    &&& r.len() <= s.len()
    &&& forall|i: int| 0 <= i < r.len() ==> #[trigger] r[i] == s[s.len() - 1 - i]
}

/// Moves the elements of `v` into a vector that yields them in order when
/// popped.
fn reverse_into<T>(v: Vec<T>) -> (rest: Vec<T>)
    ensures
        rest@.len() == v@.len(),
        reversed_tail(v@, rest@),
        rest@.to_multiset() == v@.to_multiset(),
{
    let mut src = v;
    let ghost orig = src@;
    let mut rest: Vec<T> = Vec::new();
    while src.len() > 0
        invariant
            orig.to_multiset() == src@.to_multiset().add(rest@.to_multiset()),
            src@ == orig.take(src@.len() as int),
            src@.len() + rest@.len() == orig.len(),
            reversed_tail(orig, rest@),
        decreases src.len(),
    {
        let ghost s0 = src@;
        let ghost r0 = rest@;
        let x = src.pop().unwrap();
        proof {
            assert(s0 =~= src@.push(x));
            assert(src@ =~= orig.take(src@.len() as int));
        }
        rest.push(x);
        proof {
            assert forall|i: int| 0 <= i < rest@.len() implies #[trigger] rest@[i] == orig[orig.len() - 1 - i] by {
                if i < r0.len() {
                    assert(rest@[i] == r0[i]);
                } else {
                    assert(x == s0[s0.len() - 1]);
                }
            }
        }
    }
    assert(src@.to_multiset() =~= Multiset::empty());
    rest
}

/// Sort `v` by `c`, keeping equal elements in their order.
pub fn sort_by<T, C: Preorder<T>>(v: Vec<T>, c: &C) -> (r: Vec<T>)
    ensures
        r@.to_multiset() == v@.to_multiset(),
        sorted_by(c, r@),
        exists|perm: Seq<int>| reorders(v@, r@, perm) && ties_kept(c, r@, perm),
{
    let ghost orig = v@;
    let mut rest = reverse_into(v);
    let mut out: Vec<T> = Vec::new();
    let ghost mut perm: Seq<int> = Seq::empty();
    while rest.len() > 0
        invariant
            orig.to_multiset() == out@.to_multiset().add(rest@.to_multiset()),
            sorted_by(c, out@),
            out@.len() + rest@.len() == orig.len(),
            reversed_tail(orig, rest@),
            perm.len() == out@.len(),
            forall|i: int| 0 <= i < out@.len() ==> 0 <= #[trigger] perm[i] < out@.len() && out@[i] == orig[perm[i]],
            forall|i: int, j: int| 0 <= i < j < out@.len() ==> #[trigger] perm[i] != #[trigger] perm[j],
            ties_kept(c, out@, perm),
        decreases rest.len(),
    {
        let ghost r0 = rest@;
        let ghost t = out@.len() as int;
        let x = rest.pop().unwrap();
        proof {
            assert(r0 =~= rest@.push(x));
            assert(x == orig[t]);
        }
        let mut p: usize = 0;
        while p < out.len() && c.le_exec(&out[p], &x)
            invariant
                p <= out.len(),
                forall|i: int| 0 <= i < p ==> c.le(#[trigger] out@[i], x),
            decreases out.len() - p,
        {
            p = p + 1;
        }
        let ghost o0 = out@;
        let ghost p0 = perm;
        proof {
            if p < out.len() {
                assert(!c.le(out@[p as int], x));
                assert forall|j: int| p <= j < o0.len() implies c.le(x, #[trigger] o0[j]) by {
                    c.total(x, o0[p as int]);
                    if j > p {
                        c.transitive(x, o0[p as int], o0[j]);
                    }
                }
                assert forall|j: int| p <= j < o0.len() implies !c.le(#[trigger] o0[j], x) by {
                    if j > p && c.le(o0[j], x) {
                        c.transitive(o0[p as int], o0[j], x);
                    }
                }
            }
        }
        out.insert(p, x);
        proof {
            perm = p0.insert(p as int, t);
            assert(out@ =~= o0.insert(p as int, x));
            assert forall|i: int, j: int| 0 <= i < j < out@.len() implies c.le(
                #[trigger] out@[i],
                #[trigger] out@[j],
            ) by {
                if j < p {
                    assert(out@[i] == o0[i] && out@[j] == o0[j]);
                } else if j == p {
                    assert(out@[i] == o0[i]);
                } else if i < p {
                    assert(out@[i] == o0[i] && out@[j] == o0[j - 1]);
                    assert(c.le(o0[i], x));
                    assert(c.le(x, o0[j - 1]));
                    c.transitive(o0[i], x, o0[j - 1]);
                } else if i == p {
                    assert(out@[j] == o0[j - 1]);
                } else {
                    assert(out@[i] == o0[i - 1] && out@[j] == o0[j - 1]);
                }
            }
            assert forall|i: int| 0 <= i < out@.len() implies 0 <= #[trigger] perm[i] < out@.len()
                && out@[i] == orig[perm[i]] by {
                if i < p {
                    assert(perm[i] == p0[i]);
                } else if i > p {
                    assert(perm[i] == p0[i - 1]);
                }
            }
            assert forall|i: int, j: int| 0 <= i < j < out@.len() implies #[trigger] perm[i]
                != #[trigger] perm[j] by {
                if j < p {
                } else if j == p {
                    assert(perm[i] == p0[i]);
                } else if i < p {
                    assert(perm[i] == p0[i] && perm[j] == p0[j - 1]);
                } else if i == p {
                    assert(perm[j] == p0[j - 1]);
                } else {
                    assert(perm[i] == p0[i - 1] && perm[j] == p0[j - 1]);
                }
            }
            assert forall|i: int, j: int|
                0 <= i < j < out@.len() && c.le(#[trigger] out@[i], #[trigger] out@[j]) && c.le(
                    out@[j],
                    out@[i],
                ) implies perm[i] < perm[j] by {
                if j < p {
                    assert(out@[i] == o0[i] && out@[j] == o0[j]);
                    assert(perm[i] == p0[i] && perm[j] == p0[j]);
                } else if j == p {
                    assert(perm[i] == p0[i]);
                } else if i < p {
                    assert(out@[i] == o0[i] && out@[j] == o0[j - 1]);
                    assert(perm[i] == p0[i] && perm[j] == p0[j - 1]);
                } else if i == p {
                    assert(out@[j] == o0[j - 1]);
                    assert(!c.le(o0[j - 1], x));
                } else {
                    assert(out@[i] == o0[i - 1] && out@[j] == o0[j - 1]);
                    assert(perm[i] == p0[i - 1] && perm[j] == p0[j - 1]);
                }
            }
        }
    }
    assert(rest@.to_multiset() =~= Multiset::empty());
    assert(reorders(orig, out@, perm));
    out
}


/// A comparison that need not be a preorder on every value.
pub trait Comparison<T> {
    spec fn le(&self, a: T, b: T) -> bool;

    fn le_exec(&self, a: &T, b: &T) -> (r: bool)
        ensures
            r == self.le(*a, *b),
    ;
}

/// The comparison is a total preorder on the elements of `s`.
pub open spec fn consistent_on<T, C: Comparison<T>>(c: &C, s: Seq<T>) -> bool {
    &&& forall|a: T, b: T| s.contains(a) && s.contains(b) ==> c.le(a, b) || c.le(b, a)
    &&& forall|a: T, b: T, d: T|
        s.contains(a) && s.contains(b) && s.contains(d) && #[trigger] c.le(a, b) && #[trigger] c.le(b, d)
            ==> c.le(a, d)
}

/// Elements that `c` ranks equal keep the order they had.
pub open spec fn ties_kept_with<T, C: Comparison<T>>(c: &C, r: Seq<T>, perm: Seq<int>) -> bool {
    forall|i: int, j: int|
        0 <= i < j < r.len() && c.le(#[trigger] r[i], #[trigger] r[j]) && c.le(r[j], r[i]) ==> perm[i]
            < perm[j]
}

/// Sort `v` by `c` by insertion, keeping equal elements in their order:
/// sorted (and stable) whenever `c` orders the elements of `v` consistently.
pub fn sort_with<T, C: Comparison<T>>(v: Vec<T>, c: &C) -> (r: Vec<T>)
    ensures
        r@.to_multiset() == v@.to_multiset(),
        exists|perm: Seq<int>|
            #[trigger] reorders(v@, r@, perm) && (consistent_on(c, v@) ==> ties_kept_with(c, r@, perm)),
        consistent_on(c, v@) ==> forall|i: int, j: int|
            0 <= i < j < r@.len() ==> c.le(#[trigger] r@[i], #[trigger] r@[j]),
{
    let ghost orig = v@;
    let mut rest = reverse_into(v);
    let mut out: Vec<T> = Vec::new();
    let ghost mut perm: Seq<int> = Seq::empty();
    while rest.len() > 0
        invariant
            orig.to_multiset() == out@.to_multiset().add(rest@.to_multiset()),
            consistent_on(c, orig) ==> forall|i: int, j: int|
                0 <= i < j < out@.len() ==> c.le(#[trigger] out@[i], #[trigger] out@[j]),
            out@.len() + rest@.len() == orig.len(),
            reversed_tail(orig, rest@),
            perm.len() == out@.len(),
            forall|i: int| 0 <= i < out@.len() ==> 0 <= #[trigger] perm[i] < out@.len() && out@[i] == orig[perm[i]],
            forall|i: int, j: int| 0 <= i < j < out@.len() ==> #[trigger] perm[i] != #[trigger] perm[j],
            consistent_on(c, orig) ==> ties_kept_with(c, out@, perm),
        decreases rest.len(),
    {
        let ghost r0 = rest@;
        let ghost t = out@.len() as int;
        let x = rest.pop().unwrap();
        let ghost o0 = out@;
        let ghost p0 = perm;
        proof {
            assert(r0 =~= rest@.push(x));
            assert(x == orig[t]);
            assert forall|y: T| #[trigger] o0.contains(y) implies orig.contains(y) by {
                assert(o0.to_multiset().count(y) > 0);
                assert(orig.to_multiset().count(y) > 0);
            }
            assert(orig.contains(x));
        }
        let mut p: usize = 0;
        while p < out.len() && c.le_exec(&out[p], &x)
            invariant
                p <= out.len(),
                out@ == o0,
                forall|i: int| 0 <= i < p ==> c.le(#[trigger] out@[i], x),
            decreases out.len() - p,
        {
            p = p + 1;
        }
        proof {
            if consistent_on(c, orig) && p < out.len() {
                assert(!c.le(out@[p as int], x));
                assert(o0.contains(o0[p as int]));
                assert(c.le(x, o0[p as int]));
                assert forall|j: int| p <= j < o0.len() implies c.le(x, #[trigger] o0[j]) by {
                    if j > p {
                        assert(o0.contains(o0[j]));
                        assert(c.le(o0[p as int], o0[j]));
                    }
                }
                assert forall|j: int| p <= j < o0.len() implies !c.le(#[trigger] o0[j], x) by {
                    if j > p {
                        assert(o0.contains(o0[j]));
                        assert(c.le(o0[p as int], o0[j]));
                    }
                }
            }
        }
        out.insert(p, x);
        proof {
            perm = p0.insert(p as int, t);
            assert(out@ =~= o0.insert(p as int, x));
            if consistent_on(c, orig) {
                assert forall|i: int, j: int| 0 <= i < j < out@.len() implies c.le(
                    #[trigger] out@[i],
                    #[trigger] out@[j],
                ) by {
                    if j < p {
                        assert(out@[i] == o0[i] && out@[j] == o0[j]);
                    } else if j == p {
                        assert(out@[i] == o0[i]);
                    } else if i < p {
                        assert(out@[i] == o0[i] && out@[j] == o0[j - 1]);
                        assert(c.le(o0[i], x));
                        assert(c.le(x, o0[j - 1]));
                        assert(o0.contains(o0[i]) && o0.contains(o0[j - 1]));
                    } else if i == p {
                        assert(out@[j] == o0[j - 1]);
                    } else {
                        assert(out@[i] == o0[i - 1] && out@[j] == o0[j - 1]);
                    }
                }
                assert forall|i: int, j: int|
                    0 <= i < j < out@.len() && c.le(#[trigger] out@[i], #[trigger] out@[j]) && c.le(
                        out@[j],
                        out@[i],
                    ) implies perm[i] < perm[j] by {
                    if j < p {
                        assert(out@[i] == o0[i] && out@[j] == o0[j]);
                        assert(perm[i] == p0[i] && perm[j] == p0[j]);
                    } else if j == p {
                        assert(perm[i] == p0[i]);
                    } else if i < p {
                        assert(out@[i] == o0[i] && out@[j] == o0[j - 1]);
                        assert(perm[i] == p0[i] && perm[j] == p0[j - 1]);
                    } else if i == p {
                        assert(out@[j] == o0[j - 1]);
                        assert(!c.le(o0[j - 1], x));
                    } else {
                        assert(out@[i] == o0[i - 1] && out@[j] == o0[j - 1]);
                        assert(perm[i] == p0[i - 1] && perm[j] == p0[j - 1]);
                    }
                }
            }
            assert forall|i: int| 0 <= i < out@.len() implies 0 <= #[trigger] perm[i] < out@.len()
                && out@[i] == orig[perm[i]] by {
                if i < p {
                    assert(perm[i] == p0[i]);
                } else if i > p {
                    assert(perm[i] == p0[i - 1]);
                }
            }
            assert forall|i: int, j: int| 0 <= i < j < out@.len() implies #[trigger] perm[i]
                != #[trigger] perm[j] by {
                if j < p {
                } else if j == p {
                    assert(perm[i] == p0[i]);
                } else if i < p {
                    assert(perm[i] == p0[i] && perm[j] == p0[j - 1]);
                } else if i == p {
                    assert(perm[j] == p0[j - 1]);
                } else {
                    assert(perm[i] == p0[i - 1] && perm[j] == p0[j - 1]);
                }
            }
        }
    }
    assert(rest@.to_multiset() =~= Multiset::empty());
    assert(reorders(orig, out@, perm));
    assert(consistent_on(c, orig) ==> ties_kept_with(c, out@, perm));
    out
}

} // verus!
