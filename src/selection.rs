use vstd::prelude::*;

verus! {

/// How many entries one hex key can address: the digits 0 to f.
pub const KEY_SPACE: usize = 16;

/// What a key resolves to in the combined index, recents first.
#[derive(PartialEq, Eq, Structural, Clone, Copy, Debug)]
pub enum Slot {
    Recent(usize),
    Bookmark(usize),
    Vacant,
}

/// The slot of `digit` for lists of lengths `r` and `b`.
pub open spec fn resolve_spec(r: int, b: int, digit: int) -> Slot {
    if digit < r {
        Slot::Recent(digit as usize)
    } else if digit < r + b {
        Slot::Bookmark((digit - r) as usize)
    } else {
        Slot::Vacant
    }
}

/// The key that addresses `slot` when there are `r` recents.
pub open spec fn label_spec(r: int, slot: Slot) -> Option<int> {
    match slot {
        Slot::Recent(i) => Some(i as int),
        Slot::Bookmark(j) => Some(r + j),
        Slot::Vacant => None,
    }
}

/// `slot` names an entry of lists of lengths `r` and `b`.
pub open spec fn slot_in(r: int, b: int, slot: Slot) -> bool {
    match slot {
        Slot::Recent(i) => i < r,
        Slot::Bookmark(j) => j < b,
        Slot::Vacant => false,
    }
}

/// Resolves a key against the current lengths of the two lists.
pub fn resolve(recents_len: usize, bookmarks_len: usize, digit: usize) -> (s: Slot)
    ensures
        s == resolve_spec(recents_len as int, bookmarks_len as int, digit as int),
        digit < recents_len ==> s == Slot::Recent(digit),
        recents_len <= digit < recents_len + bookmarks_len ==> s == Slot::Bookmark(
            (digit - recents_len) as usize,
        ),
        digit >= recents_len + bookmarks_len ==> s == Slot::Vacant,
{
    if digit < recents_len {
        Slot::Recent(digit)
    } else if digit - recents_len < bookmarks_len {
        Slot::Bookmark(digit - recents_len)
    } else {
        Slot::Vacant
    }
}

/// The key of `slot` when there are `recents_len` recents; a vacant slot has none.
pub fn label(recents_len: usize, slot: Slot) -> (d: Option<usize>)
    requires
        slot matches Slot::Bookmark(j) ==> recents_len + j <= usize::MAX,
    ensures
        d matches Some(v) ==> label_spec(recents_len as int, slot) == Some(v as int),
        d is None ==> label_spec(recents_len as int, slot) is None,
{
    match slot {
        Slot::Recent(i) => Some(i),
        Slot::Bookmark(j) => Some(recents_len + j),
        Slot::Vacant => None,
    }
}

/// Labels and keys are inverse: every entry's label resolves back to that entry,
/// as long as the two lists fit in the key space.
pub proof fn lemma_label_round_trip(r: int, b: int, slot: Slot)
    requires
        0 <= r,
        0 <= b,
        r + b <= KEY_SPACE,
        slot_in(r, b, slot),
    ensures
        label_spec(r, slot) matches Some(d) && 0 <= d < r + b && resolve_spec(r, b, d) == slot,
{
}

/// A key past the end of both lists resolves to nothing.
pub proof fn lemma_out_of_range(r: int, b: int, digit: int)
    requires
        0 <= r,
        0 <= b,
        digit >= r + b,
    ensures
        resolve_spec(r, b, digit) == Slot::Vacant,
{
}

/// The value of a hex digit character, either case.
pub open spec fn hex_value_spec(c: char) -> Option<int> {
    if '0' <= c <= '9' {
        Some(c as int - '0' as int)
    } else if 'a' <= c <= 'f' {
        Some(c as int - 'a' as int + 10)
    } else if 'A' <= c <= 'F' {
        Some(c as int - 'A' as int + 10)
    } else {
        None
    }
}

/// The lower-case hex digit for a value below sixteen.
pub open spec fn hex_char_spec(d: int) -> char {
    if d < 10 {
        ((d + '0' as int) as u32) as char
    } else {
        ((d - 10 + 'a' as int) as u32) as char
    }
}

/// The value of `c` as a hex digit, or `None` when it is not one.
pub fn hex_value(c: char) -> (r: Option<usize>)
    ensures
        r matches Some(v) ==> hex_value_spec(c) == Some(v as int),
        r is None ==> hex_value_spec(c) is None,
        r matches Some(v) ==> v < KEY_SPACE,
{
    if '0' <= c && c <= '9' {
        Some((c as u32 - '0' as u32) as usize)
    } else if 'a' <= c && c <= 'f' {
        Some((c as u32 - 'a' as u32 + 10) as usize)
    } else if 'A' <= c && c <= 'F' {
        Some((c as u32 - 'A' as u32 + 10) as usize)
    } else {
        None
    }
}

/// The label character of key `d`.
pub fn hex_char(d: usize) -> (c: char)
    requires
        d < KEY_SPACE,
    ensures
        c == hex_char_spec(d as int),
        hex_value_spec(c) == Some(d as int),
{
    if d < 10 {
        ((d as u32 + '0' as u32) as u8) as char
    } else {
        ((d as u32 - 10 + 'a' as u32) as u8) as char
    }
}

} // verus!
