//! Laws that relate the primitives of `utils` to the operations built on them.
use vstd::prelude::*;
use vstd::utf8::*;

use crate::utils::{char_boundary, encoded_byte_count, gap_closed, gap_opened, moved, overwritten};

verus! {

/// Opening a gap at `from` up to `to`, writing `content` into the gap and growing
/// the length by the gap's width inserts `content` into the text at `from`; the
/// bytes that stood at `[from, len)` reappear unchanged at `[to, to + len - from)`.
pub proof fn lemma_open_gap_then_fill_inserts(
    b: Seq<u8>,
    len: int,
    from: int,
    to: int,
    content: Seq<u8>,
)
    requires
        0 <= from <= to,
        from <= len <= b.len(),
        to + (len - from) <= b.len(),
        content.len() == to - from,
    ensures
        gap_opened(b, len, from, to).subrange(to, to + (len - from)) == b.subrange(from, len),
        overwritten(gap_opened(b, len, from, to), from, content).subrange(0, len + (to - from))
            == b.subrange(0, from) + content + b.subrange(from, len),
{
    let g = gap_opened(b, len, from, to);
    let w = overwritten(g, from, content);
    assert(g.subrange(to, to + (len - from)) =~= b.subrange(from, len));
    assert(w.subrange(0, len + (to - from)) =~= b.subrange(0, from) + content + b.subrange(
        from,
        len,
    ));
}

/// Closing the gap `[to, from)` puts the bytes that stood at `[from, len)` at `to`
/// and leaves every other byte as it was; with the length shrunk by the gap's width
/// the text is the old one with `[to, from)` removed.
pub proof fn lemma_close_gap_removes(b: Seq<u8>, len: int, from: int, to: int)
    requires
        0 <= to <= from <= len <= b.len(),
    ensures
        gap_closed(b, len, from, to).len() == b.len(),
        gap_closed(b, len, from, to).subrange(to, to + (len - from)) == b.subrange(from, len),
        forall|i: int|
            0 <= i < b.len() && !(to <= i < to + (len - from)) ==> #[trigger] gap_closed(
                b,
                len,
                from,
                to,
            )[i] == b[i],
        gap_closed(b, len, from, to).subrange(0, len - (from - to)) == b.subrange(0, to)
            + b.subrange(from, len),
{
    let g = gap_closed(b, len, from, to);
    assert(g.subrange(to, to + (len - from)) =~= b.subrange(from, len));
    assert(g.subrange(0, len - (from - to)) =~= b.subrange(0, to) + b.subrange(from, len));
}

/// Opening or closing a gap of width zero changes no byte, whatever the offset.
pub proof fn lemma_empty_gap_is_noop(b: Seq<u8>, len: int, k: int)
    ensures
        gap_opened(b, len, k, k) == b,
        gap_closed(b, len, k, k) == b,
{
    assert(moved(b, k, k, len - k) =~= b);
}

/// The bytes written for a `char` number `encoded_byte_count(c)`, between one and
/// four, form valid UTF-8, and decode to `c` alone.
pub proof fn lemma_encoded_char_decodes(c: char)
    ensures
        1 <= encoded_byte_count(c) <= 4,
        valid_utf8(encode_scalar(c as u32)),
        decode_utf8(encode_scalar(c as u32)) == seq![c],
{
    let s = seq![c];
    assert(s.drop_first() =~= Seq::<char>::empty());
    reveal_with_fuel(encode_utf8, 2);
    assert(encode_utf8(s) =~= encode_scalar(c as u32) + Seq::<u8>::empty());
    assert(encode_utf8(s) =~= encode_scalar(c as u32));
    encode_utf8_valid_utf8(s);
    encode_utf8_decode_utf8(s);
}

/// On valid UTF-8, `char_boundary` is the character boundary of `vstd::utf8`.
pub proof fn lemma_char_boundary_matches_utf8(text: Seq<u8>, index: int)
    requires
        valid_utf8(text),
    ensures
        char_boundary(text, index) <==> is_char_boundary(text, index),
{
    is_char_boundary_start_end_of_seq(text);
    if 0 <= index < text.len() {
        is_char_boundary_iff_not_is_continuation_byte(text, index);
    }
}

} // verus!
