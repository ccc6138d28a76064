use std::str::from_utf8;

use arraystring::utils::{
    encode_char_utf8_unchecked, is_char_boundary, is_inside_boundary, shift_left_unchecked,
    shift_right_unchecked, truncate_str,
};
use arraystring::{Error, SmallString, StaticString};

#[test]
fn truncate() {
    assert_eq!(truncate_str("i", 10), "i");
    assert_eq!(truncate_str("iiiiii", 3), "iii");
    assert_eq!(truncate_str("🤔🤔🤔", 5), "🤔");
}

#[test]
fn shift_right() {
    let mut ls = SmallString::try_from_str("abcdefg").unwrap();
    shift_right_unchecked(&mut ls, 0usize, 4usize);
    let n = ls.len() + 4;
    ls.set_len(n);
    assert_eq!(from_utf8(ls.as_bytes()).unwrap(), "abcdabcdefg");
}

#[test]
fn shift_left() {
    let mut ls = SmallString::try_from_str("abcdefg").unwrap();
    shift_left_unchecked(&mut ls, 1usize, 0usize);
    let n = ls.len() - 1;
    ls.set_len(n);
    assert_eq!(from_utf8(ls.as_bytes()).unwrap(), "bcdefg");
}

#[test]
fn shift_nop() {
    let mut ls = SmallString::try_from_str("abcdefg").unwrap();
    shift_right_unchecked(&mut ls, 0usize, 0usize);
    assert_eq!(from_utf8(ls.as_bytes()).unwrap(), "abcdefg");
    shift_left_unchecked(&mut ls, 0usize, 0usize);
    assert_eq!(from_utf8(ls.as_bytes()).unwrap(), "abcdefg");
}

#[test]
fn encode_char_utf8() {
    let mut string = SmallString::default();
    encode_char_utf8_unchecked(&mut string, 'a', 0);
    assert_eq!(from_utf8(&string.as_mut_bytes()[..1]).unwrap(), "a");
    let mut string = SmallString::try_from_str("a").unwrap();

    encode_char_utf8_unchecked(&mut string, '🤔', 1);
    assert_eq!(from_utf8(&string.as_mut_bytes()[..5]).unwrap(), "a🤔");
}

#[test]
fn encode_thinking_face_bytes() {
    let mut string = SmallString::try_from_str("a").unwrap();
    encode_char_utf8_unchecked(&mut string, '\u{1F914}', 1);
    assert_eq!(&string.as_mut_bytes()[..5], &[0x61, 0xF0, 0x9F, 0xA4, 0x94]);
}

#[test]
fn encode_two_and_three_byte_chars() {
    let mut string = StaticString::<8>::new();
    encode_char_utf8_unchecked(&mut string, 'é', 0);
    assert_eq!(&string.as_mut_bytes()[..2], &[0xC3, 0xA9]);
    encode_char_utf8_unchecked(&mut string, '€', 2);
    assert_eq!(&string.as_mut_bytes()[..5], &[0xC3, 0xA9, 0xE2, 0x82, 0xAC]);
    string.set_len(5);
    assert_eq!(from_utf8(string.as_bytes()).unwrap(), "é€");
}

#[test]
fn encode_leaves_other_bytes() {
    let mut string = StaticString::<6>::try_from_str("xyzw").unwrap();
    encode_char_utf8_unchecked(&mut string, 'ß', 1);
    assert_eq!(&string.as_mut_bytes()[..4], &[b'x', 0xC3, 0x9F, b'w']);
    assert_eq!(string.len(), 4);
}

#[test]
fn encode_largest_scalar() {
    let mut string = StaticString::<4>::new();
    encode_char_utf8_unchecked(&mut string, '\u{10FFFF}', 0);
    assert_eq!(string.as_mut_bytes(), &[0xF4, 0x8F, 0xBF, 0xBF]);
}

#[test]
fn truncate_edges() {
    assert_eq!(truncate_str("", 0), "");
    assert_eq!(truncate_str("", 4), "");
    assert_eq!(truncate_str("abc", 0), "");
    assert_eq!(truncate_str("abc", 3), "abc");
    assert_eq!(truncate_str("🤔🤔🤔", 4), "🤔");
    assert_eq!(truncate_str("🤔🤔🤔", 3), "");
    assert_eq!(truncate_str("aé", 2), "a");
    assert_eq!(truncate_str("🤔🤔🤔", 12), "🤔🤔🤔");
}

#[test]
fn truncate_prefix_within_bounds() {
    let s = "añ€🤔z";
    for n in 0..20 {
        let r = truncate_str(s, n);
        assert!(r.len() <= n.min(s.len()));
        assert!(s.starts_with(r));
        assert!(s.is_char_boundary(r.len()));
    }
}

#[test]
fn inside_boundary() {
    assert_eq!(is_inside_boundary(3, 3), Ok(()));
    assert_eq!(is_inside_boundary(0, 0), Ok(()));
    assert_eq!(is_inside_boundary(4, 3), Err(Error::OutOfBounds));
    assert_eq!(is_inside_boundary(usize::MAX, usize::MAX - 1), Err(Error::OutOfBounds));
}

#[test]
fn char_boundary_check() {
    let s = SmallString::try_from_str("a🤔b").unwrap();
    assert_eq!(is_char_boundary(&s, 0), Ok(()));
    assert_eq!(is_char_boundary(&s, 1), Ok(()));
    assert_eq!(is_char_boundary(&s, 2), Err(Error::Utf8));
    assert_eq!(is_char_boundary(&s, 4), Err(Error::Utf8));
    assert_eq!(is_char_boundary(&s, 5), Ok(()));
    assert_eq!(is_char_boundary(&s, 6), Ok(()));
    assert_eq!(is_char_boundary(&s, 7), Err(Error::Utf8));
}

#[test]
fn char_boundary_agrees_with_str() {
    let text = "añ€🤔z";
    let s = SmallString::try_from_str(text).unwrap();
    for i in 0..(text.len() + 3) {
        assert_eq!(is_char_boundary(&s, i).is_ok(), text.is_char_boundary(i));
    }
}

#[test]
fn from_str_too_long() {
    assert!(StaticString::<3>::try_from_str("abc").is_ok());
    assert_eq!(StaticString::<3>::try_from_str("abcd").err(), Some(Error::OutOfBounds));
    let s = StaticString::<3>::try_from_str("ab").unwrap();
    assert_eq!(s.len(), 2);
    assert_eq!(s.capacity(), 3);
}

#[test]
fn insert_through_open_gap() {
    let mut ls = SmallString::try_from_str("a🤔b").unwrap();
    shift_right_unchecked(&mut ls, 1, 3);
    encode_char_utf8_unchecked(&mut ls, 'é', 1);
    let n = ls.len() + 2;
    ls.set_len(n);
    assert_eq!(from_utf8(ls.as_bytes()).unwrap(), "aé🤔b");
}

#[test]
fn remove_through_close_gap() {
    let mut ls = SmallString::try_from_str("a🤔bc").unwrap();
    shift_left_unchecked(&mut ls, 5, 1);
    let n = ls.len() - 4;
    ls.set_len(n);
    assert_eq!(from_utf8(ls.as_bytes()).unwrap(), "abc");
}

#[test]
fn close_gap_moves_only_the_tail() {
    let mut ls = StaticString::<10>::try_from_str("abcdefg").unwrap();
    shift_left_unchecked(&mut ls, 5, 2);
    assert_eq!(&ls.as_mut_bytes()[..7], b"abfgefg");
}

#[test]
fn open_gap_at_end_moves_nothing() {
    let mut ls = StaticString::<10>::try_from_str("abc").unwrap();
    shift_right_unchecked(&mut ls, 3, 6);
    assert_eq!(&ls.as_mut_bytes()[..7], b"abc\0\0\0\0");
}
