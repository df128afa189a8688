//! Helpers for byte strings: searching, trimming and appending.

use vstd::prelude::*;

verus! {

/// The index of the first `b` in `s`, or the length of `s` if it holds none.
pub open spec fn first_index(s: Seq<u8>, b: u8) -> int
    decreases s.len(),
{
    if s.len() == 0 || s[0] == b {
        0
    } else {
        1 + first_index(s.drop_first(), b)
    }
}

/// `first_index` is the one index below which no `b` occurs and at which `s`
/// ends or holds `b`.
pub proof fn lemma_first_index(s: Seq<u8>, b: u8, i: int)
    requires
        0 <= i <= s.len(),
        forall|j: int| 0 <= j < i ==> s[j] != b,
        i < s.len() ==> s[i] == b,
    ensures
        first_index(s, b) == i,
    decreases i,
{
    if i > 0 {
        let t = s.drop_first();
        assert forall|j: int| 0 <= j < i - 1 implies t[j] != b by {
            assert(t[j] == s[j + 1]);
        }
        lemma_first_index(t, b, i - 1);
        assert(s[0] != b);
    }
}

/// What `first_index` returns: a position within bounds, with no `b` before it.
pub proof fn lemma_first_index_bounds(s: Seq<u8>, b: u8)
    ensures
        0 <= first_index(s, b) <= s.len(),
        forall|j: int| 0 <= j < first_index(s, b) ==> s[j] != b,
        first_index(s, b) < s.len() ==> s[first_index(s, b)] == b,
    decreases s.len(),
{
    if s.len() == 0 || s[0] == b {
    } else {
        let t = s.drop_first();
        lemma_first_index_bounds(t, b);
        assert forall|j: int| 0 <= j < first_index(s, b) implies s[j] != b by {
            if j > 0 {
                assert(t[j - 1] == s[j]);
            }
        }
        if first_index(s, b) < s.len() {
            assert(t[first_index(t, b)] == s[first_index(t, b) + 1]);
        }
    }
}

/// Whether `s` holds no byte `b`.
pub open spec fn no_byte(s: Seq<u8>, b: u8) -> bool {
    forall|i: int| 0 <= i < s.len() ==> #[trigger] s[i] != b
}

/// Where `s` holds no `b`, the first index of `b` is the length of `s`.
pub proof fn lemma_no_byte(s: Seq<u8>, b: u8)
    ensures
        no_byte(s, b) <==> first_index(s, b) == s.len(),
{
    lemma_first_index_bounds(s, b);
    if no_byte(s, b) {
        lemma_first_index(s, b, s.len() as int);
    }
}

/// Behind bytes without `b`, the first `b` is the first of what follows.
pub proof fn lemma_first_index_after(head: Seq<u8>, tail: Seq<u8>, b: u8)
    requires
        no_byte(head, b),
    ensures
        first_index(head + tail, b) == head.len() + first_index(tail, b),
{
    let s = head + tail;
    let i = first_index(tail, b);
    lemma_first_index_bounds(tail, b);
    assert forall|j: int| 0 <= j < head.len() + i implies s[j] != b by {
        if j < head.len() {
            assert(s[j] == head[j]);
        } else {
            assert(s[j] == tail[j - head.len()]);
        }
    }
    if i < tail.len() {
        assert(s[head.len() + i] == tail[i]);
    }
    lemma_first_index(s, b, head.len() + i);
}

/// Finds the first `b` in `s`; returns the length of `s` if there is none.
pub fn find_byte(s: &[u8], b: u8) -> (r: usize)
    ensures
        r == first_index(s@, b),
        r <= s.len(),
{
    let mut i: usize = 0;
    while i < s.len() && s[i] != b
        invariant
            i <= s.len(),
            forall|j: int| 0 <= j < i ==> s@[j] != b,
        decreases s.len() - i,
    {
        i += 1;
    }
    proof {
        lemma_first_index(s@, b, i as int);
    }
    i
}

/// How many blanks `s` ends in.
pub open spec fn trailing_spaces(s: Seq<u8>) -> nat
    decreases s.len(),
{
    if s.len() > 0 && s.last() == 32 {
        1 + trailing_spaces(s.drop_last())
    } else {
        0
    }
}

/// `s` without the blanks it ends in.
pub open spec fn trim_end(s: Seq<u8>) -> Seq<u8> {
    s.subrange(0, s.len() - trailing_spaces(s))
}

/// The trimmed string is the longest prefix that does not end in a blank.
pub proof fn lemma_trim_end(s: Seq<u8>, n: int)
    requires
        0 <= n <= s.len(),
        forall|j: int| n <= j < s.len() ==> s[j] == 32,
        n > 0 ==> s[n - 1] != 32,
    ensures
        trailing_spaces(s) == s.len() - n,
        trim_end(s) == s.subrange(0, n),
    decreases s.len() - n,
{
    if n < s.len() {
        let t = s.drop_last();
        lemma_trim_end(t, n);
    }
}

/// The last `trailing_spaces` bytes are blanks, and the byte before them is
/// none.
pub proof fn lemma_trailing_spaces(s: Seq<u8>)
    ensures
        trailing_spaces(s) <= s.len(),
        forall|j: int| s.len() - trailing_spaces(s) <= j < s.len() ==> s[j] == 32,
        trailing_spaces(s) < s.len() ==> s[s.len() - trailing_spaces(s) - 1] != 32,
    decreases s.len(),
{
    if s.len() > 0 && s.last() == 32 {
        let t = s.drop_last();
        lemma_trailing_spaces(t);
        assert forall|j: int| s.len() - trailing_spaces(s) <= j < s.len() implies s[j] == 32 by {
            if j < t.len() {
                assert(t[j] == s[j]);
            }
        }
        if trailing_spaces(s) < s.len() {
            assert(t[t.len() - trailing_spaces(t) - 1] == s[s.len() - trailing_spaces(s) - 1]);
        }
    }
}

/// Bytes without the blanks at their end, and the blanks again, are the
/// bytes.
pub proof fn lemma_trim_and_pad(s: Seq<u8>)
    ensures
        trim_end(s) + Seq::new((s.len() - trim_end(s).len()) as nat, |i: int| 32u8) == s,
        trim_end(s).len() <= s.len(),
{
    lemma_trailing_spaces(s);
    assert(trim_end(s) + Seq::new((s.len() - trim_end(s).len()) as nat, |i: int| 32u8) =~= s);
}

/// Removes the blanks at the end of `arr`.
pub fn trim_spaces_end(arr: &mut Vec<u8>)
    ensures
        final(arr)@ == trim_end(old(arr)@),
{
    let mut n: usize = arr.len();
    while n > 0 && arr[n - 1] == 32
        invariant
            n <= arr.len(),
            *arr == *old(arr),
            forall|j: int| n <= j < arr.len() ==> arr@[j] == 32,
        decreases n,
    {
        n -= 1;
    }
    proof {
        lemma_trim_end(arr@, n as int);
    }
    arr.truncate(n);
}

/// Appends the bytes of `s` to `buf`.
pub fn append(buf: &mut Vec<u8>, s: &[u8])
    ensures
        final(buf)@ == old(buf)@ + s@,
{
    let mut i: usize = 0;
    while i < s.len()
        invariant
            i <= s.len(),
            buf@ == old(buf)@ + s@.subrange(0, i as int),
        decreases s.len() - i,
    {
        buf.push(s[i]);
        i += 1;
        assert(buf@ =~= old(buf)@ + s@.subrange(0, i as int));
    }
    assert(s@.subrange(0, i as int) =~= s@);
}

/// Appends `n` copies of `fill` to `buf`.
pub fn append_fill(buf: &mut Vec<u8>, fill: u8, n: usize)
    ensures
        final(buf)@ == old(buf)@ + Seq::new(n as nat, |i: int| fill),
{
    let mut i: usize = 0;
    while i < n
        invariant
            i <= n,
            buf@ == old(buf)@ + Seq::new(i as nat, |k: int| fill),
        decreases n - i,
    {
        buf.push(fill);
        i += 1;
        assert(buf@ =~= old(buf)@ + Seq::new(i as nat, |k: int| fill));
    }
}

/// A copy of the bytes of `s` from `from` up to `to`.
pub fn copy_range(s: &[u8], from: usize, to: usize) -> (r: Vec<u8>)
    requires
        from <= to <= s.len(),
    ensures
        r@ == s@.subrange(from as int, to as int),
{
    let mut r: Vec<u8> = Vec::new();
    let mut i: usize = from;
    while i < to
        invariant
            from <= i <= to <= s.len(),
            r@ == s@.subrange(from as int, i as int),
        decreases to - i,
    {
        r.push(s[i]);
        i += 1;
        assert(r@ =~= s@.subrange(from as int, i as int));
    }
    r
}

/// A copy of all the bytes of `s`.
pub fn copy_all(s: &[u8]) -> (r: Vec<u8>)
    ensures
        r@ == s@,
{
    assert(s@.subrange(0, s@.len() as int) =~= s@);
    copy_range(s, 0, s.len())
}

/// The UTF-8 bytes of a character.
pub open spec fn char_bytes(c: char) -> Seq<u8> {
    let v = c as u32;
    if v < 0x80 {
        seq![v as u8]
    } else if v < 0x800 {
        seq![(0xC0 + v / 64) as u8, (0x80 + v % 64) as u8]
    } else if v < 0x10000 {
        seq![(0xE0 + v / 4096) as u8, (0x80 + (v / 64) % 64) as u8, (0x80 + v % 64) as u8]
    } else {
        seq![
            (0xF0 + v / 262144) as u8,
            (0x80 + (v / 4096) % 64) as u8,
            (0x80 + (v / 64) % 64) as u8,
            (0x80 + v % 64) as u8,
        ]
    }
}

/// Appends a character in UTF-8.
pub fn push_char(buf: &mut Vec<u8>, c: char)
    ensures
        final(buf)@ == old(buf)@ + char_bytes(c),
{
    let v: u32 = c as u32;
    if v < 0x80 {
        buf.push(v as u8);
        assert(buf@ =~= old(buf)@ + char_bytes(c));
    } else if v < 0x800 {
        buf.push((0xC0 + v / 64) as u8);
        buf.push((0x80 + v % 64) as u8);
        assert(buf@ =~= old(buf)@ + char_bytes(c));
    } else if v < 0x10000 {
        buf.push((0xE0 + v / 4096) as u8);
        buf.push((0x80 + (v / 64) % 64) as u8);
        buf.push((0x80 + v % 64) as u8);
        assert(buf@ =~= old(buf)@ + char_bytes(c));
    } else {
        buf.push((0xF0 + v / 262144) as u8);
        buf.push((0x80 + (v / 4096) % 64) as u8);
        buf.push((0x80 + (v / 64) % 64) as u8);
        buf.push((0x80 + v % 64) as u8);
        assert(buf@ =~= old(buf)@ + char_bytes(c));
    }
}

} // verus!
