//! Marking the matches of a news search in a line of text: the text is cut
//! where its lower-cased form contains the lower-cased query, at the byte
//! offsets found there.
use vstd::prelude::*;
use crate::bytes::{byte_len, char_index_at_byte, utf8_width, utf8_width_exec};
use crate::browser::byte_len_exec;
use crate::text::{chars_of, find_from, find_from_exec, lemma_find_from, lowercase, slice_range,
    string_of, to_lowercase};

verus! {

/// Whether byte `b` of `s` starts a character (or is its end).
pub open spec fn at_boundary(s: Seq<char>, b: nat) -> bool {
    char_index_at_byte(s, b, 0) is Some
}

/// The characters of `s` between the byte offsets `a` and `b`.
pub open spec fn slice_bytes(s: Seq<char>, a: nat, b: nat) -> Seq<char> {
    match (char_index_at_byte(s, a, 0), char_index_at_byte(s, b, 0)) {
        (Some(i), Some(j)) => s.subrange(i, j),
        _ => seq![],
    }
}

/// The pieces of `text` from the match search at character `from` of the
/// lower-cased text `tl` on, the last piece having ended at byte `last`:
/// before each match of `ql` the text since the last piece (when there is
/// any), then the `qb` bytes of the text at the match's byte offset, marked;
/// after the last match the rest of the text. None when a cut falls inside
/// a character of `text`.
pub open spec fn highlight_from(
    text: Seq<char>,
    tl: Seq<char>,
    ql: Seq<char>,
    qb: nat,
    from: int,
    last: nat,
) -> Option<Seq<(Seq<char>, bool)>>
    decreases tl.len() - from,
{
    if from < 0 {
        None
    } else {
        match find_from(tl, ql, from) {
            None => if last < byte_len(text) {
                if at_boundary(text, last) {
                    Some(seq![(slice_bytes(text, last, byte_len(text)), false)])
                } else {
                    None
                }
            } else {
                Some(seq![])
            },
            Some(j) => {
                proof {
                    lemma_find_from(tl, ql, from);
                }
                let idx = byte_len(tl.take(j));
                let end = idx + qb;
                if !at_boundary(text, idx) || !at_boundary(text, end) || (idx > last
                    && !at_boundary(text, last)) {
                    None
                } else {
                    let head = if idx > last {
                        seq![(slice_bytes(text, last, idx), false)]
                    } else {
                        seq![]
                    };
                    match highlight_from(text, tl, ql, qb, j + ql.len(), end) {
                        None => None,
                        Some(rest) => Some(head + seq![(slice_bytes(text, idx, end), true)] + rest),
                    }
                }
            },
        }
    }
}

/// The pieces of `text` for the search `query`, marked where they match:
/// the whole text unmarked for an empty query. None where slicing the text
/// would fail, or when the lower case of a non-empty query is empty.
pub open spec fn highlight_spec(text: Seq<char>, query: Seq<char>) -> Option<Seq<(Seq<char>, bool)>> {
    if query.len() == 0 {
        Some(seq![(text, false)])
    } else if lowercase(query).len() == 0 {
        None
    } else {
        highlight_from(text, lowercase(text), lowercase(query), byte_len(query), 0, 0)
    }
}

pub open spec fn pieces_view(v: Seq<(String, bool)>) -> Seq<(Seq<char>, bool)> {
    v.map_values(|p: (String, bool)| (p.0@, p.1))
}

pub open spec fn opt_append(
    p: Seq<(Seq<char>, bool)>,
    o: Option<Seq<(Seq<char>, bool)>>,
) -> Option<Seq<(Seq<char>, bool)>> {
    match o {
        Some(s) => Some(p + s),
        None => None,
    }
}

/// Longer prefixes take more bytes.
proof fn lemma_prefix_bytes_grow(s: Seq<char>, m: int, n: int)
    requires
        0 <= m < n <= s.len(),
    ensures
        byte_len(s.take(m)) < byte_len(s.take(n)),
    decreases n - m,
{
    assert(s.take(n).drop_last() =~= s.take(n - 1));
    if m < n - 1 {
        lemma_prefix_bytes_grow(s, m, n - 1);
    }
}

/// The index found for byte `b` has exactly `b` bytes before it.
proof fn lemma_char_index_found(s: Seq<char>, b: nat, m: int)
    ensures
        char_index_at_byte(s, b, m) matches Some(x) ==> m <= x <= s.len() && byte_len(s.take(x))
            == b,
    decreases s.len() - m,
{
    if 0 <= m <= s.len() && byte_len(s.take(m)) != b && byte_len(s.take(m)) < b && m < s.len() {
        lemma_char_index_found(s, b, m + 1);
    }
}

/// Cuts at larger byte offsets fall at later characters.
proof fn lemma_char_index_mono(s: Seq<char>, a: nat, b: nat)
    requires
        a <= b,
        at_boundary(s, a),
        at_boundary(s, b),
    ensures
        char_index_at_byte(s, a, 0)->0 <= char_index_at_byte(s, b, 0)->0,
{
    lemma_char_index_found(s, a, 0);
    lemma_char_index_found(s, b, 0);
    let i = char_index_at_byte(s, a, 0)->0;
    let j = char_index_at_byte(s, b, 0)->0;
    if j < i {
        lemma_prefix_bytes_grow(s, j, i);
    }
}

/// A character takes at most four bytes.
proof fn lemma_byte_len_bound(s: Seq<char>)
    ensures
        byte_len(s) <= 4 * s.len(),
    decreases s.len(),
{
    if s.len() > 0 {
        lemma_byte_len_bound(s.drop_last());
    }
}

/// The end of the text is a cut at its last character.
proof fn lemma_char_index_end(s: Seq<char>, m: int)
    requires
        0 <= m <= s.len(),
    ensures
        char_index_at_byte(s, byte_len(s), m) == Some(s.len() as int),
    decreases s.len() - m,
{
    if m < s.len() {
        assert(s.take(s.len() as int) =~= s);
        lemma_prefix_bytes_grow(s, m, s.len() as int);
        lemma_char_index_end(s, m + 1);
    } else {
        assert(s.take(m) =~= s);
    }
}

/// `byte_len(s.take(j))`.
fn prefix_bytes(s: &[char], j: usize) -> (n: u128)
    requires
        j <= s.len(),
    ensures
        n == byte_len(s@.take(j as int)),
        n <= 4 * j,
{
    let mut n: u128 = 0;
    let mut k: usize = 0;
    assert(s@.take(0) =~= Seq::<char>::empty());
    while k < j
        invariant
            k <= j <= s.len(),
            n == byte_len(s@.take(k as int)),
            n <= 4 * k,
        decreases j - k,
    {
        assert(s@.take(k + 1).drop_last() =~= s@.take(k as int));
        n = n + utf8_width_exec(s[k]) as u128;
        k = k + 1;
    }
    n
}

/// `char_index_at_byte(s, b, 0)`, for any byte offset.
fn char_at_byte(s: &[char], b: u128) -> (r: Option<usize>)
    ensures
        match r {
            Some(m) => char_index_at_byte(s@, b as nat, 0) == Some(m as int) && m <= s.len(),
            None => char_index_at_byte(s@, b as nat, 0) is None,
        },
{
    let mut acc: u128 = 0;
    let mut m: usize = 0;
    assert(s@.take(0) =~= Seq::<char>::empty());
    while m < s.len() && acc < b
        invariant
            m <= s.len(),
            acc == byte_len(s@.take(m as int)),
            acc <= 4 * m,
            char_index_at_byte(s@, b as nat, 0) == char_index_at_byte(s@, b as nat, m as int),
        decreases s.len() - m,
    {
        assert(s@.take(m + 1).drop_last() =~= s@.take(m as int));
        acc = acc + utf8_width_exec(s[m]) as u128;
        m = m + 1;
    }
    proof {
        crate::bytes::lemma_char_index_bound(s@, b as nat, 0);
    }
    if acc == b {
        Some(m)
    } else {
        None
    }
}

/// The characters of `t` between two cuts.
fn cut(t: &[char], a: u128, b: u128) -> (r: Option<String>)
    requires
        a <= b,
    ensures
        match r {
            Some(x) => at_boundary(t@, a as nat) && at_boundary(t@, b as nat) && x@ == slice_bytes(
                t@,
                a as nat,
                b as nat,
            ),
            None => !at_boundary(t@, a as nat) || !at_boundary(t@, b as nat),
        },
{
    let i = match char_at_byte(t, a) {
        Some(i) => i,
        None => return None,
    };
    let j = match char_at_byte(t, b) {
        Some(j) => j,
        None => return None,
    };
    proof {
        lemma_char_index_mono(t@, a as nat, b as nat);
    }
    Some(string_of(slice_range(t, i, j).as_slice()))
}

/// Cuts `text` into the pieces that the news screen shows, marking the
/// matches of `query` (compared in lower case); `None` where a cut would
/// fall inside a character.
pub fn highlight_search(text: &str, query: &str) -> (r: Option<Vec<(String, bool)>>)
    ensures
        match r {
            Some(v) => highlight_spec(text@, query@) == Some(pieces_view(v@)),
            None => highlight_spec(text@, query@) is None,
        },
{
    let q = chars_of(query);
    let t = chars_of(text);
    if q.len() == 0 {
        let mut one: Vec<(String, bool)> = Vec::new();
        one.push((text.to_string(), false));
        assert(pieces_view(one@) =~= seq![(text@, false)]);
        return Some(one);
    }
    let ql = to_lowercase(q.as_slice());
    if ql.len() == 0 {
        return None;
    }
    let tl = to_lowercase(t.as_slice());
    let qb = byte_len_exec(q.as_slice());
    proof {
        lemma_byte_len_bound(q@);
    }
    let total = byte_len_exec(t.as_slice());
    let ghost whole = highlight_from(t@, tl@, ql@, qb as nat, 0, 0);
    let mut out: Vec<(String, bool)> = Vec::new();
    let mut from: usize = 0;
    let mut last: u128 = 0;
    assert(pieces_view(out@) =~= Seq::<(Seq<char>, bool)>::empty());
    assert(opt_append(pieces_view(out@), whole) =~= whole) by {
        match whole {
            Some(s) => {
                assert(Seq::<(Seq<char>, bool)>::empty() + s =~= s);
            },
            None => {},
        }
    }
    loop
        invariant
            from <= tl.len(),
            last <= total,
            total == byte_len(t@),
            qb == byte_len(q@),
            qb <= 4 * q.len(),
            ql@.len() > 0,
            t@ == text@,
            q@ == query@,
            q@.len() > 0,
            tl@ == lowercase(t@),
            ql@ == lowercase(q@),
            whole == highlight_from(t@, tl@, ql@, qb as nat, 0, 0),
            whole == opt_append(pieces_view(out@), highlight_from(t@, tl@, ql@, qb as nat, from as int, last as nat)),
            last == 0 || at_boundary(t@, last as nat),
        decreases tl.len() - from,
    {
        proof {
            lemma_find_from(tl@, ql@, from as int);
        }
        match find_from_exec(tl.as_slice(), ql.as_slice(), from) {
            None => {
                proof {
                    lemma_char_index_end(t@, 0);
                }
                let ghost o = pieces_view(out@);
                let ghost hf = highlight_from(t@, tl@, ql@, qb as nat, from as int, last as nat);
                assert(hf == if (last as nat) < byte_len(t@) {
                    Some(seq![(slice_bytes(t@, last as nat, byte_len(t@)), false)])
                } else {
                    Some(Seq::<(Seq<char>, bool)>::empty())
                });
                if last < total {
                    let piece = match cut(t.as_slice(), last, total) {
                        Some(p) => p,
                        None => {
                            return None;
                        },
                    };
                    out.push((piece, false));
                    assert(pieces_view(out@) =~= o + seq![(slice_bytes(t@, last as nat, byte_len(t@)), false)]);
                } else {
                    assert(o + Seq::<(Seq<char>, bool)>::empty() =~= o);
                }
                assert(whole == Some(pieces_view(out@)));
                return Some(out);
            },
            Some(j) => {
                let idx = prefix_bytes(tl.as_slice(), j);
                let end = idx + qb;
                proof {
                    crate::bytes::lemma_byte_len_prefix_le(tl@, j as int);
                }
                let hit = match cut(t.as_slice(), idx, end) {
                    Some(p) => p,
                    None => {
                        return None;
                    },
                };
                let ghost o = pieces_view(out@);
                if idx > last {
                    let before = match cut(t.as_slice(), last, idx) {
                        Some(p) => p,
                        None => {
                            return None;
                        },
                    };
                    out.push((before, false));
                }
                let ghost head = if idx > last {
                    seq![(slice_bytes(t@, last as nat, idx as nat), false)]
                } else {
                    Seq::<(Seq<char>, bool)>::empty()
                };
                out.push((hit, true));
                assert(pieces_view(out@) =~= o + head + seq![(slice_bytes(t@, idx as nat, end as nat), true)]);
                proof {
                    crate::bytes::lemma_char_index_bound(t@, end as nat, 0);
                    lemma_char_index_found(t@, end as nat, 0);
                    crate::bytes::lemma_byte_len_prefix_le(t@, char_index_at_byte(t@, end as nat, 0)->0);
                    let rest = highlight_from(t@, tl@, ql@, qb as nat, j + ql@.len(), end as nat);
                    match rest {
                        Some(s) => {
                            assert(o + (head + seq![(slice_bytes(t@, idx as nat, end as nat), true)] + s)
                                =~= pieces_view(out@) + s);
                        },
                        None => {},
                    }
                }
                from = j + ql.len();
                last = end;
            },
        }
    }
}

/// The pieces the news screen draws for a line: the highlighted pieces
/// when the line can be cut at its matches, else the whole line unmarked.
pub fn highlight_or_plain(text: &str, query: &str) -> (r: Vec<(String, bool)>)
    ensures
        pieces_view(r@) == match highlight_spec(text@, query@) {
            Some(p) => p,
            None => seq![(text@, false)],
        },
{
    match highlight_search(text, query) {
        Some(v) => v,
        None => {
            let mut one: Vec<(String, bool)> = Vec::new();
            one.push((text.to_string(), false));
            assert(pieces_view(one@) =~= seq![(text@, false)]);
            one
        },
    }
}

} // verus!
