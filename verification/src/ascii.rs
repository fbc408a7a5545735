//! ASCII text in bytes.

use vstd::prelude::*;
use vstd::slice::slice_subrange;

verus! {

/// An ASCII letter in lower case. Other bytes are left.
pub open spec fn lower_byte(b: u8) -> u8 {
    if 65 <= b <= 90 {
        (b + 32) as u8
    } else {
        b
    }
}

/// Whether two runs of bytes differ only in the case of ASCII letters.
pub open spec fn same_but_case(a: Seq<u8>, b: Seq<u8>) -> bool {
    a.len() == b.len() && forall|i: int|
        0 <= i < a.len() ==> lower_byte(#[trigger] a[i]) == lower_byte(b[i])
}

fn lowered_byte(b: u8) -> (low: u8)
    ensures
        low == lower_byte(b),
{
    if 65 <= b && b <= 90 {
        b + 32
    } else {
        b
    }
}

/// Tells whether two runs of bytes differ only in the case of ASCII letters.
pub fn eq_ignore_case(a: &[u8], b: &[u8]) -> (same: bool)
    ensures
        same == same_but_case(a@, b@),
{
    let len: usize = a.len();
    if len != b.len() {
        return false;
    }
    let mut i: usize = 0;
    while i < len
        invariant
            len == a@.len(),
            len == b@.len(),
            i <= len,
            forall|j: int| 0 <= j < i ==> lower_byte(#[trigger] a@[j]) == lower_byte(b@[j]),
        decreases len - i,
    {
        if lowered_byte(a[i]) != lowered_byte(b[i]) {
            assert(lower_byte(a@[i as int]) != lower_byte(b@[i as int]));
            return false;
        }
        i = i + 1;
    }
    true
}

/// Tells whether two runs of bytes are equal.
pub fn eq_bytes(a: &[u8], b: &[u8]) -> (same: bool)
    ensures
        same == (a@ == b@),
{
    let len: usize = a.len();
    if len != b.len() {
        return false;
    }
    let mut i: usize = 0;
    while i < len
        invariant
            len == a@.len(),
            len == b@.len(),
            i <= len,
            forall|j: int| 0 <= j < i ==> a@[j] == b@[j],
        decreases len - i,
    {
        if a[i] != b[i] {
            return false;
        }
        i = i + 1;
    }
    assert(a@ =~= b@);
    true
}

/// Whether a byte separates the items of a list.
pub open spec fn separator(b: u8) -> bool {
    b == 32 || b == 44
}

/// Whether the bytes from `i` to `j` are an item of a list: no separator is among them, and there
/// is a separator or an end on each side.
pub open spec fn item_at(bytes: Seq<u8>, i: int, j: int) -> bool {
    &&& 0 <= i <= j <= bytes.len()
    &&& i == 0 || separator(bytes[i - 1])
    &&& j == bytes.len() || separator(bytes[j])
    &&& forall|k: int| i <= k < j ==> !separator(#[trigger] bytes[k])
}

/// Whether an item of a list is `expected`, but for the case of letters.
pub open spec fn lists(bytes: Seq<u8>, expected: Seq<u8>) -> bool {
    exists|i: int, j: int| #[trigger]
        item_at(bytes, i, j) && same_but_case(bytes.subrange(i, j), expected)
}

/// Tells whether an item of a list is `expected`, but for the case of letters.
pub fn any_item(bytes: &[u8], expected: &[u8]) -> (found: bool)
    ensures
        found == lists(bytes@, expected@),
{
    let len: usize = bytes.len();
    let mut start: usize = 0;
    let mut end: usize = 0;
    loop
        invariant
            len == bytes@.len(),
            start <= end <= len,
            start == 0 || separator(bytes@[start - 1]),
            forall|k: int| start <= k < end ==> !separator(#[trigger] bytes@[k]),
            forall|i: int, j: int|
                i < start && #[trigger] item_at(bytes@, i, j) ==> !same_but_case(
                    bytes@.subrange(i, j),
                    expected@,
                ),
        decreases len - end,
    {
        if end == len || bytes[end] == 32 || bytes[end] == 44 {
            assert(item_at(bytes@, start as int, end as int));
            if eq_ignore_case(slice_subrange(bytes, start, end), expected) {
                return true;
            }
            assert forall|i: int, j: int|
                i < end + 1 && #[trigger] item_at(bytes@, i, j) implies !same_but_case(
                bytes@.subrange(i, j),
                expected@,
            ) by {
                if i >= start {
                    if i > start {
                        assert(separator(bytes@[i - 1]));
                    }
                    if j < end {
                        assert(separator(bytes@[j]));
                    }
                    if j > end {
                        assert(separator(bytes@[end as int]));
                    }
                }
            }
            if end == len {
                return false;
            }
            start = end + 1;
        }
        end = end + 1;
    }
}

/// Tells whether a separator is among the bytes.
pub fn has_separator(bytes: &[u8]) -> (found: bool)
    ensures
        found == exists|i: int| 0 <= i < bytes@.len() && separator(#[trigger] bytes@[i]),
{
    let len: usize = bytes.len();
    let mut i: usize = 0;
    while i < len
        invariant
            len == bytes@.len(),
            i <= len,
            forall|k: int| 0 <= k < i ==> !separator(#[trigger] bytes@[k]),
        decreases len - i,
    {
        if bytes[i] == 32 || bytes[i] == 44 {
            assert(separator(bytes@[i as int]));
            return true;
        }
        i = i + 1;
    }
    false
}

/// Whether `text` occurs in `bytes`, but for the case of letters.
pub open spec fn mentions(bytes: Seq<u8>, text: Seq<u8>) -> bool {
    exists|i: int|
        0 <= i && i + text.len() <= bytes.len() && same_but_case(
            #[trigger] bytes.subrange(i, i + text.len()),
            text,
        )
}

/// Tells whether `text` occurs in `bytes`, but for the case of letters.
pub fn contains_ignore_case(bytes: &[u8], text: &[u8]) -> (found: bool)
    ensures
        found == mentions(bytes@, text@),
{
    let len: usize = bytes.len();
    let width: usize = text.len();
    if len < width {
        return false;
    }
    let mut i: usize = 0;
    while i <= len - width
        invariant
            len == bytes@.len(),
            width == text@.len(),
            width <= len,
            i <= len - width + 1,
            forall|j: int|
                0 <= j < i ==> !same_but_case(
                    #[trigger] bytes@.subrange(j, j + width),
                    text@,
                ),
        decreases len - width + 1 - i,
    {
        if eq_ignore_case(slice_subrange(bytes, i, i + width), text) {
            assert(same_but_case(bytes@.subrange(i as int, i + width), text@));
            return true;
        }
        if i == len - width {
            return false;
        }
        i = i + 1;
    }
    false
}

} // verus!
