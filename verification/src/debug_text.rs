//! Early debug output: a message is written straight into the text-mode
//! buffer, one character byte and one attribute byte per cell, starting at
//! the first column of a given row. This module computes the byte writes;
//! the caller stores them at offsets from the buffer's address.
use vstd::prelude::*;

verus! {

/// Attribute of debug text: white on black.
pub const DEBUG_ATTRIBUTE: u8 = 0x0F;

/// Bytes in one row of the text buffer (80 cells of two bytes).
pub const DEBUG_ROW_BYTES: usize = 160;

/// The byte writes that show `message` from the start of `row`: for the
/// `i`-th byte, the character at `row * 160 + 2 i` and the attribute at the
/// byte after it.
pub open spec fn debug_write_at(row: int, message: Seq<u8>, k: int) -> (usize, u8) {
    let i = k / 2;
    if k % 2 == 0 {
        ((row * DEBUG_ROW_BYTES + 2 * i) as usize, message[i])
    } else {
        ((row * DEBUG_ROW_BYTES + 2 * i + 1) as usize, DEBUG_ATTRIBUTE)
    }
}

/// The byte writes, in the order they are made, that show `message` on
/// `row` in white on black.
pub fn debug_writes(row: usize, message: &[u8]) -> (r: Vec<(usize, u8)>)
    requires
        message@.len() == 0 || row * DEBUG_ROW_BYTES + 2 * message@.len() - 1 <= usize::MAX,
    ensures
        r@.len() == 2 * message@.len(),
        forall|k: int| 0 <= k < r@.len() ==> #[trigger] r@[k] == debug_write_at(row as int, message@, k),
{
    let mut r: Vec<(usize, u8)> = Vec::new();
    let n = message.len();
    if n == 0 {
        return r;
    }
    assert(row * DEBUG_ROW_BYTES <= usize::MAX);
    let base = row * DEBUG_ROW_BYTES;
    let mut i: usize = 0;
    while i < n
        invariant
            n == message@.len(),
            n > 0,
            i <= n,
            base == row * DEBUG_ROW_BYTES,
            base + 2 * n - 1 <= usize::MAX,
            r@.len() == 2 * i,
            forall|k: int| 0 <= k < r@.len() ==> #[trigger] r@[k] == debug_write_at(row as int, message@, k),
        decreases n - i,
    {
        let offset = base + i * 2;
        r.push((offset, message[i]));
        r.push((offset + 1, DEBUG_ATTRIBUTE));
        proof {
            let k0 = 2 * i as int;
            assert(k0 / 2 == i && k0 % 2 == 0);
            assert((k0 + 1) / 2 == i && (k0 + 1) % 2 == 1);
        }
        i = i + 1;
    }
    r
}

/// The `i`-th byte of the message goes to byte `2 i` of the row, which is
/// 160 bytes long, and its attribute, white on black (0x0F), to the byte after it.
pub proof fn lemma_debug_write_places(row: int, message: Seq<u8>, i: int)
    requires
        0 <= i < message.len(),
        0 <= row,
        row * 160 + 2 * i + 1 <= usize::MAX,
    ensures
        debug_write_at(row, message, 2 * i) == ((row * 160 + 2 * i) as usize, message[i]),
        debug_write_at(row, message, 2 * i + 1) == ((row * 160 + 2 * i + 1) as usize, 0x0Fu8),
{
    assert((2 * i) / 2 == i && (2 * i) % 2 == 0);
    assert((2 * i + 1) / 2 == i && (2 * i + 1) % 2 == 1);
}

} // verus!
