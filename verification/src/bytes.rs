//! Byte lengths of UTF-8 text, for the places where a string is sliced by
//! byte offsets.
use vstd::prelude::*;

verus! {

/// Number of bytes of the UTF-8 encoding of `c`.
pub open spec fn utf8_width(c: char) -> nat {
    let u = c as u32;
    if u < 0x80 {
        1
    } else if u < 0x800 {
        2
    } else if u < 0x10000 {
        3
    } else {
        4
    }
}

/// Number of bytes of the UTF-8 encoding of `s` (what `str::len` returns).
pub open spec fn byte_len(s: Seq<char>) -> nat
    decreases s.len(),
{
    if s.len() == 0 {
        0
    } else {
        byte_len(s.drop_last()) + utf8_width(s.last())
    }
}

/// The number of leading characters of `s` whose encoding is exactly `b`
/// bytes long, looking from `m` characters on; none when byte `b` falls
/// inside a character or past the end.
pub open spec fn char_index_at_byte(s: Seq<char>, b: nat, m: int) -> Option<int>
    decreases s.len() - m,
{
    if m < 0 || m > s.len() {
        None
    } else if byte_len(s.take(m)) == b {
        Some(m)
    } else if byte_len(s.take(m)) > b || m == s.len() {
        None
    } else {
        char_index_at_byte(s, b, m + 1)
    }
}

pub fn utf8_width_exec(c: char) -> (w: usize)
    ensures
        w == utf8_width(c),
        1 <= w <= 4,
{
    let u = c as u32;
    if u < 0x80 {
        1
    } else if u < 0x800 {
        2
    } else if u < 0x10000 {
        3
    } else {
        4
    }
}

/// Whether `byte_len(s) > k`.
pub fn byte_len_exceeds(s: &[char], k: usize) -> (r: bool)
    ensures
        r == (byte_len(s@) > k),
{
    let mut acc: u128 = 0;
    let mut m: usize = 0;
    while m < s.len()
        invariant
            m <= s.len(),
            acc == byte_len(s@.take(m as int)),
            acc <= k,
        decreases s.len() - m,
    {
        assert(s@.take(m + 1).drop_last() =~= s@.take(m as int));
        acc = acc + utf8_width_exec(s[m]) as u128;
        m = m + 1;
        if acc > k as u128 {
            proof {
                lemma_byte_len_prefix_le(s@, m as int);
            }
            return true;
        }
    }
    assert(s@.take(m as int) =~= s@);
    false
}

/// A prefix is never longer in bytes than the whole.
pub proof fn lemma_byte_len_prefix_le(s: Seq<char>, m: int)
    requires
        0 <= m <= s.len(),
    ensures
        byte_len(s.take(m)) <= byte_len(s),
    decreases s.len() - m,
{
    if m < s.len() {
        lemma_byte_len_prefix_le(s, m + 1);
        assert(s.take(m + 1).drop_last() =~= s.take(m));
    } else {
        assert(s.take(m) =~= s);
    }
}

/// The index found lies inside `s`.
pub proof fn lemma_char_index_bound(s: Seq<char>, b: nat, m: int)
    ensures
        char_index_at_byte(s, b, m) matches Some(x) ==> m <= x <= s.len(),
    decreases s.len() - m,
{
    if 0 <= m <= s.len() && byte_len(s.take(m)) < b && m < s.len() {
        lemma_char_index_bound(s, b, m + 1);
    }
}

/// `char_index_at_byte(s, b, 0)`.
pub fn char_index_at_byte_exec(s: &[char], b: usize) -> (r: Option<usize>)
    ensures
        match r {
            Some(m) => char_index_at_byte(s@, b as nat, 0) == Some(m as int) && m <= s.len(),
            None => char_index_at_byte(s@, b as nat, 0) is None,
        },
{
    let mut acc: u128 = 0;
    let mut m: usize = 0;
    assert(s@.take(0) =~= Seq::<char>::empty());
    while m < s.len() && acc < b as u128
        invariant
            m <= s.len(),
            acc == byte_len(s@.take(m as int)),
            acc <= b + 4,
            char_index_at_byte(s@, b as nat, 0) == char_index_at_byte(s@, b as nat, m as int),
        decreases s.len() - m,
    {
        assert(s@.take(m + 1).drop_last() =~= s@.take(m as int));
        acc = acc + utf8_width_exec(s[m]) as u128;
        m = m + 1;
    }
    proof {
        lemma_char_index_bound(s@, b as nat, 0);
    }
    if acc == b as u128 {
        Some(m)
    } else {
        None
    }
}

} // verus!
