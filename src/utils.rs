use vstd::prelude::*;
use vstd::string::StringSliceAdditionalSpecFns;
use vstd::utf8::*;

use crate::error::Error;
use crate::string::StaticString;

verus! {

/// Tag of a UTF-8 continuation byte.
const TAG_CONT: u8 = 0b1000_0000;
/// Tag of the leading byte of a two-byte encoding.
const TAG_TWO_B: u8 = 0b1100_0000;
/// Tag of the leading byte of a three-byte encoding.
const TAG_THREE_B: u8 = 0b1110_0000;
/// Tag of the leading byte of a four-byte encoding.
const TAG_FOUR_B: u8 = 0b1111_0000;
/// Smallest code point that needs two bytes.
const MAX_ONE_B: u32 = 0x80;
/// Smallest code point that needs three bytes.
const MAX_TWO_B: u32 = 0x800;
/// Smallest code point that needs four bytes.
const MAX_THREE_B: u32 = 0x10000;

/// How many bytes the UTF-8 encoding of `c` takes.
pub open spec fn encoded_byte_count(c: char) -> nat {
    encode_scalar(c as u32).len()
}

/// `b` with the bytes of `w` written over it from offset `at` on.
pub open spec fn overwritten(b: Seq<u8>, at: int, w: Seq<u8>) -> Seq<u8> {
    b.subrange(0, at) + w + b.subrange(at + w.len(), b.len() as int)
}

/// `b` after copying `len` bytes from offset `from` to offset `to`, as a memmove
/// does: the copied bytes are those `b` held before the copy began.
pub open spec fn moved(b: Seq<u8>, from: int, to: int, len: int) -> Seq<u8> {
    Seq::new(b.len(), |i: int| if to <= i < to + len { b[i - to + from] } else { b[i] })
}

/// `index` is a character boundary of `text`: its start, its end, or a byte that
/// is not a continuation byte.
pub open spec fn char_boundary(text: Seq<u8>, index: int) -> bool {
    index == 0 || index == text.len() || (0 <= index < text.len() && !is_continuation_byte(
        text[index],
    ))
}

/// The buffer after opening a gap: the live bytes from `from` on now start at `to`.
pub open spec fn gap_opened(b: Seq<u8>, len: int, from: int, to: int) -> Seq<u8> {
    moved(b, from, to, len - from)
}

/// The buffer after closing a gap: the live bytes from `from` on now start at `to`.
pub open spec fn gap_closed(b: Seq<u8>, len: int, from: int, to: int) -> Seq<u8> {
    moved(b, from, to, len - from)
}

/// Succeeds when `size` does not exceed `limit`.
pub fn is_inside_boundary(size: usize, limit: usize) -> (r: Result<(), Error>)
    ensures
        r == (if size <= limit { Ok::<(), Error>(()) } else { Err(Error::OutOfBounds) }),
{
    if size <= limit {
        Ok(())
    } else {
        Err(Error::OutOfBounds)
    }
}

/// Succeeds when `idx` is a character boundary of the live text of `s`.
pub fn is_char_boundary<const N: usize>(s: &StaticString<N>, idx: usize) -> (r: Result<(), Error>)
    requires
        s.wf(),
    ensures
        r == (if char_boundary(s.text(), idx as int) {
            Ok::<(), Error>(())
        } else {
            Err(Error::Utf8)
        }),
{
    let text = s.as_bytes();
    proof {
        if idx < text@.len() {
            utf8_byte_ranges_bitwise(text@[idx as int]);
        }
    }
    if idx == 0 || idx == text.len() || (idx < text.len() && (text[idx] & 0xC0) != 0x80) {
        Ok(())
    } else {
        Err(Error::Utf8)
    }
}

/// Copies `len` bytes from offset `from` to offset `to` of `s`; the two ranges may
/// overlap.
fn shift_unchecked(s: &mut [u8], from: usize, to: usize, len: usize)
    requires
        from + len <= old(s)@.len(),
        to + len <= old(s)@.len(),
    ensures
        final(s)@ == moved(old(s)@, from as int, to as int, len as int),
{
    let ghost b = old(s)@;
    let n = s.len();
    if to <= from {
        let mut i: usize = 0;
        while i < len
            invariant
                to <= from,
                from + len <= b.len(),
                to + len <= b.len(),
                i <= len,
                s@.len() == b.len(),
                b.len() == n,
                forall|k: int|
                    0 <= k < b.len() ==> #[trigger] s@[k] == (if to <= k < to + i {
                        b[k - to + from]
                    } else {
                        b[k]
                    }),
            decreases len - i,
        {
            let v = s[from + i];
            s[to + i] = v;
            i = i + 1;
        }
    } else {
        let mut i: usize = len;
        while i > 0
            invariant
                from < to,
                from + len <= b.len(),
                to + len <= b.len(),
                i <= len,
                s@.len() == b.len(),
                b.len() == n,
                forall|k: int|
                    0 <= k < b.len() ==> #[trigger] s@[k] == (if to + i <= k < to + len {
                        b[k - to + from]
                    } else {
                        b[k]
                    }),
            decreases i,
        {
            let v = s[from + i - 1];
            s[to + i - 1] = v;
            i = i - 1;
        }
    }
    assert(s@ =~= moved(b, from as int, to as int, len as int));
}

/// Moves the live bytes of `s` from `from` on so that they start at `to`, opening
/// a gap of `to - from` bytes at `from`.
///
/// Neither the gap's bytes nor the logical length are written.
pub fn shift_right_unchecked<const N: usize>(s: &mut StaticString<N>, from: usize, to: usize)
    requires
        old(s).wf(),
        from <= to,
        char_boundary(old(s).text(), from as int),
        to + (old(s).spec_len() - from) <= N,
    ensures
        final(s).wf(),
        final(s).spec_len() == old(s).spec_len(),
        final(s).bytes() == gap_opened(
            old(s).bytes(),
            old(s).spec_len() as int,
            from as int,
            to as int,
        ),
{
    let len = s.len() - from;
    shift_unchecked(s.as_mut_bytes(), from, to, len);
}

/// Moves the live bytes of `s` from `from` on so that they start at `to`, closing
/// the gap between `to` and `from`.
///
/// The logical length is not written.
pub fn shift_left_unchecked<const N: usize>(s: &mut StaticString<N>, from: usize, to: usize)
    requires
        old(s).wf(),
        to <= from <= old(s).spec_len(),
        char_boundary(old(s).text(), from as int),
    ensures
        final(s).wf(),
        final(s).spec_len() == old(s).spec_len(),
        final(s).bytes() == gap_closed(
            old(s).bytes(),
            old(s).spec_len() as int,
            from as int,
            to as int,
        ),
{
    let len = s.len() - from;
    shift_unchecked(s.as_mut_bytes(), from, to, len);
}

/// Cutting the encoding of `chars` at a character boundary `k` leaves the
/// encoding of a leading part of `chars`.
proof fn lemma_boundary_prefix_decodes(chars: Seq<char>, head: Seq<char>, k: int)
    requires
        vstd::utf8::is_char_boundary(encode_utf8(chars), k),
        encode_utf8(head) == encode_utf8(chars).subrange(0, k),
    ensures
        head == chars.subrange(0, head.len() as int),
{
    let b = encode_utf8(chars);
    encode_utf8_valid_utf8(chars);
    encode_utf8_decode_utf8(chars);
    encode_utf8_decode_utf8(head);
    decode_utf8_split(b, k);
    let tail = decode_utf8(b.subrange(k, b.len() as int));
    assert(chars == head + tail);
    assert(chars.subrange(0, head.len() as int) =~= head);
}

/// The longest leading part of `slice` that ends on a character boundary and
/// is at most `size` bytes long.
pub fn truncate_str(slice: &str, size: usize) -> (r: &str)
    ensures
        valid_utf8(r.spec_bytes()),
        r.spec_bytes().len() <= size,
        r.spec_bytes().len() <= slice.spec_bytes().len(),
        r@ == slice@.subrange(0, r@.len() as int),
        r.spec_bytes() == slice.spec_bytes().subrange(0, r.spec_bytes().len() as int),
        vstd::utf8::is_char_boundary(slice.spec_bytes(), r.spec_bytes().len() as int),
        forall|j: int|
            r.spec_bytes().len() < j <= size && j <= slice.spec_bytes().len()
                ==> !vstd::utf8::is_char_boundary(slice.spec_bytes(), j),
{
    let ghost b = slice.spec_bytes();
    proof {
        encode_utf8_valid_utf8(slice@);
        is_char_boundary_start_end_of_seq(b);
    }
    if slice.is_char_boundary(size) {
        let (head, _) = slice.split_at(size);
        proof {
            encode_utf8_valid_utf8(head@);
            lemma_boundary_prefix_decodes(slice@, head@, size as int);
        }
        head
    } else if size < slice.as_bytes().len() {
        let mut index: usize = size - 1;
        while !slice.is_char_boundary(index)
            invariant
                b == slice.spec_bytes(),
                valid_utf8(b),
                vstd::utf8::is_char_boundary(b, 0),
                index < size,
                size < b.len(),
                forall|j: int| index < j <= size ==> !vstd::utf8::is_char_boundary(b, j),
            decreases index,
        {
            index = index - 1;
        }
        let (head, _) = slice.split_at(index);
        proof {
            encode_utf8_valid_utf8(head@);
            lemma_boundary_prefix_decodes(slice@, head@, index as int);
        }
        head
    } else {
        proof {
            assert(b.subrange(0, b.len() as int) =~= b);
            encode_utf8_valid_utf8(slice@);
            assert(slice@.subrange(0, slice@.len() as int) =~= slice@);
        }
        slice
    }
}

/// Writes the UTF-8 encoding of `ch` into the buffer of `s` from `index` on.
///
/// Only those bytes change; the logical length stays as it is.
pub fn encode_char_utf8_unchecked<const N: usize>(s: &mut StaticString<N>, ch: char, index: usize)
    requires
        old(s).wf(),
        index + encoded_byte_count(ch) <= N,
        old(s).spec_len() + encoded_byte_count(ch) <= N,
    ensures
        final(s).wf(),
        final(s).spec_len() == old(s).spec_len(),
        final(s).bytes() == overwritten(old(s).bytes(), index as int, encode_scalar(ch as u32)),
{
    let ghost b = old(s).bytes();
    let code = ch as u32;
    proof {
        char_is_scalar(ch);
    }
    let dst = s.as_mut_bytes();
    if code < MAX_ONE_B {
        dst[index] = code as u8;
        assert(code as u8 == leading_byte_width_1(code)) by (bit_vector)
            requires
                code < 0x80,
        ;
    } else if code < MAX_TWO_B {
        dst[index] = (code >> 6 & 0x1F) as u8 | TAG_TWO_B;
        dst[index + 1] = (code & 0x3F) as u8 | TAG_CONT;
        assert((code >> 6 & 0x1F) as u8 | 0xC0u8 == leading_byte_width_2(code)
            && (code & 0x3F) as u8 | 0x80u8 == last_continuation_byte(code)) by (bit_vector);
    } else if code < MAX_THREE_B {
        dst[index] = (code >> 12 & 0x0F) as u8 | TAG_THREE_B;
        dst[index + 1] = (code >> 6 & 0x3F) as u8 | TAG_CONT;
        dst[index + 2] = (code & 0x3F) as u8 | TAG_CONT;
        assert((code >> 12 & 0x0F) as u8 | 0xE0u8 == leading_byte_width_3(code)
            && (code >> 6 & 0x3F) as u8 | 0x80u8 == second_last_continuation_byte(code)
            && (code & 0x3F) as u8 | 0x80u8 == last_continuation_byte(code)) by (bit_vector);
    } else {
        dst[index] = (code >> 18 & 0x07) as u8 | TAG_FOUR_B;
        dst[index + 1] = (code >> 12 & 0x3F) as u8 | TAG_CONT;
        dst[index + 2] = (code >> 6 & 0x3F) as u8 | TAG_CONT;
        dst[index + 3] = (code & 0x3F) as u8 | TAG_CONT;
        assert((code >> 18 & 0x07) as u8 | 0xF0u8 == leading_byte_width_4(code)
            && (code >> 12 & 0x3F) as u8 | 0x80u8 == third_last_continuation_byte(code)
            && (code >> 6 & 0x3F) as u8 | 0x80u8 == second_last_continuation_byte(code)
            && (code & 0x3F) as u8 | 0x80u8 == last_continuation_byte(code)) by (bit_vector);
    }
    assert(dst@ =~= overwritten(b, index as int, encode_scalar(code)));
}

} // verus!
