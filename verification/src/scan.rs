//! Byte-level scanning primitives shared by the wire parser and the URI
//! matcher: finding a byte, a CRLF, or a CRLF-CRLF, and copying a range of a
//! byte slice into an owned vector.

use vstd::prelude::*;
use vstd::slice::slice_subrange;
use vstd::slice::slice_to_vec;

verus! {

/// Carriage return.
pub const CR: u8 = 13;

/// Line feed.
pub const LF: u8 = 10;

/// True when the two bytes at `i` are a CRLF.
pub open spec fn is_crlf_at(s: Seq<u8>, i: int) -> bool {
    &&& 0 <= i
    &&& i + 2 <= s.len()
    &&& s[i] == CR
    &&& s[i + 1] == LF
}

/// True when the four bytes at `i` are a CRLF immediately followed by another.
pub open spec fn is_crlf2_at(s: Seq<u8>, i: int) -> bool {
    &&& is_crlf_at(s, i)
    &&& i + 4 <= s.len()
    &&& s[i + 2] == CR
    &&& s[i + 3] == LF
}

/// Index of the first occurrence of byte `b` in `s` at or after `from`.
pub open spec fn find_byte_from(s: Seq<u8>, from: int, b: u8) -> Option<int>
    decreases s.len() - from,
{
    if from < 0 || from >= s.len() {
        None
    } else if s[from] == b {
        Some(from)
    } else {
        find_byte_from(s, from + 1, b)
    }
}

/// Index of the first CRLF in `s` at or after `from`.
pub open spec fn find_crlf_from(s: Seq<u8>, from: int) -> Option<int>
    decreases s.len() - from,
{
    if from < 0 || from + 2 > s.len() {
        None
    } else if is_crlf_at(s, from) {
        Some(from)
    } else {
        find_crlf_from(s, from + 1)
    }
}

/// Index of the first CRLF-CRLF in `s` at or after `from`.
pub open spec fn find_crlf2_from(s: Seq<u8>, from: int) -> Option<int>
    decreases s.len() - from,
{
    if from < 0 || from + 4 > s.len() {
        None
    } else if is_crlf2_at(s, from) {
        Some(from)
    } else {
        find_crlf2_from(s, from + 1)
    }
}

/// What a successful or failed byte search says about the contents of `s`.
pub proof fn lemma_find_byte_props(s: Seq<u8>, from: int, b: u8)
    requires
        0 <= from,
    ensures
        match find_byte_from(s, from, b) {
            Some(j) => from <= j < s.len() && s[j] == b && (forall|k: int|
                from <= k < j ==> s[k] != b),
            None => forall|k: int| from <= k < s.len() ==> s[k] != b,
        },
    decreases s.len() - from,
{
    if from < s.len() && s[from] != b {
        lemma_find_byte_props(s, from + 1, b);
    }
}

/// A byte known to sit at `j`, with none of that byte before it, is what the
/// search finds.
pub proof fn lemma_find_byte_is_some(s: Seq<u8>, from: int, b: u8, j: int)
    requires
        0 <= from <= j < s.len(),
        s[j] == b,
        forall|k: int| from <= k < j ==> s[k] != b,
    ensures
        find_byte_from(s, from, b) == Some(j),
    decreases j - from,
{
    if from < j {
        lemma_find_byte_is_some(s, from + 1, b, j);
    }
}

/// What a successful or failed CRLF search says about the contents of `s`.
pub proof fn lemma_find_crlf_props(s: Seq<u8>, from: int)
    requires
        0 <= from,
    ensures
        match find_crlf_from(s, from) {
            Some(j) => from <= j && j + 2 <= s.len() && is_crlf_at(s, j) && (forall|k: int|
                from <= k < j ==> !is_crlf_at(s, k)),
            None => forall|k: int| from <= k ==> !is_crlf_at(s, k),
        },
    decreases s.len() - from,
{
    if from + 2 <= s.len() && !is_crlf_at(s, from) {
        lemma_find_crlf_props(s, from + 1);
    }
}

/// What a successful or failed CRLF-CRLF search says about the contents of
/// `s`.
pub proof fn lemma_find_crlf2_props(s: Seq<u8>, from: int)
    requires
        0 <= from,
    ensures
        match find_crlf2_from(s, from) {
            Some(j) => from <= j && j + 4 <= s.len() && is_crlf2_at(s, j) && (forall|k: int|
                from <= k < j ==> !is_crlf2_at(s, k)),
            None => forall|k: int| from <= k ==> !is_crlf2_at(s, k),
        },
    decreases s.len() - from,
{
    if from + 4 <= s.len() && !is_crlf2_at(s, from) {
        lemma_find_crlf2_props(s, from + 1);
    }
}

/// Finds the first occurrence of `b` in `bytes[from..]`.
pub fn find_byte(bytes: &[u8], from: usize, b: u8) -> (r: Option<usize>)
    requires
        from <= bytes@.len(),
    ensures
        match r {
            Some(j) => find_byte_from(bytes@, from as int, b) == Some(j as int)
                && from <= j < bytes@.len(),
            None => find_byte_from(bytes@, from as int, b) is None,
        },
{
    let mut i: usize = from;
    while i < bytes.len()
        invariant
            from <= i <= bytes@.len(),
            find_byte_from(bytes@, from as int, b) == find_byte_from(bytes@, i as int, b),
        decreases bytes@.len() - i,
    {
        if bytes[i] == b {
            return Some(i);
        }
        i = i + 1;
    }
    None
}

/// Finds the first CRLF in `bytes[from..]`.
pub fn find_crlf(bytes: &[u8], from: usize) -> (r: Option<usize>)
    requires
        from <= bytes@.len(),
    ensures
        match r {
            Some(j) => find_crlf_from(bytes@, from as int) == Some(j as int)
                && from <= j && j + 2 <= bytes@.len(),
            None => find_crlf_from(bytes@, from as int) is None,
        },
{
    if bytes.len() < 2 || from > bytes.len() - 2 {
        return None;
    }
    let last = bytes.len() - 2;
    let mut i: usize = from;
    while i <= last
        invariant
            from <= i,
            last == bytes@.len() - 2,
            i <= last + 1,
            find_crlf_from(bytes@, from as int) == find_crlf_from(bytes@, i as int),
        decreases last + 1 - i,
    {
        if bytes[i] == CR && bytes[i + 1] == LF {
            return Some(i);
        }
        i = i + 1;
    }
    None
}

/// Finds the first CRLF-CRLF in `bytes[from..]`.
pub fn find_crlf2(bytes: &[u8], from: usize) -> (r: Option<usize>)
    requires
        from <= bytes@.len(),
    ensures
        match r {
            Some(j) => find_crlf2_from(bytes@, from as int) == Some(j as int)
                && from <= j && j + 4 <= bytes@.len(),
            None => find_crlf2_from(bytes@, from as int) is None,
        },
{
    if bytes.len() < 4 || from > bytes.len() - 4 {
        return None;
    }
    let last = bytes.len() - 4;
    let mut i: usize = from;
    while i <= last
        invariant
            from <= i,
            last == bytes@.len() - 4,
            i <= last + 1,
            find_crlf2_from(bytes@, from as int) == find_crlf2_from(bytes@, i as int),
        decreases last + 1 - i,
    {
        if bytes[i] == CR && bytes[i + 1] == LF && bytes[i + 2] == CR && bytes[i + 3] == LF {
            return Some(i);
        }
        i = i + 1;
    }
    None
}

/// Copies `bytes[from..to]` into an owned vector.
pub fn copy_range(bytes: &[u8], from: usize, to: usize) -> (r: Vec<u8>)
    requires
        from <= to <= bytes@.len(),
    ensures
        r@ == bytes@.subrange(from as int, to as int),
{
    slice_to_vec(slice_subrange(bytes, from, to))
}

} // verus!
