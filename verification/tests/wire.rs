use yserver::strings::{append_decimal, is_before, starts_with};
use yserver::wire::{
    pad4, padded_len, read_i16, read_u16, read_u32, wrap_i16, wrap_u16, write_i16, write_u16,
    write_u32,
};

#[test]
fn integers_are_little_endian() {
    let mut out: Vec<u8> = Vec::new();
    write_u16(&mut out, 0x1234);
    write_i16(&mut out, -2);
    write_u32(&mut out, 0x89ab_cdef);
    assert_eq!(out, [0x34, 0x12, 0xfe, 0xff, 0xef, 0xcd, 0xab, 0x89]);
}

#[test]
fn integers_read_back_as_written() {
    for value in [0u16, 1, 255, 256, 0x7fff, 0x8000, 0xffff] {
        let mut out: Vec<u8> = vec![9, 9];
        write_u16(&mut out, value);
        assert_eq!(read_u16(&out, 2), value);
    }
    for value in [0i16, 1, -1, i16::MIN, i16::MAX] {
        let mut out: Vec<u8> = Vec::new();
        write_i16(&mut out, value);
        assert_eq!(read_i16(&out, 0), value);
    }
    for value in [0u32, 1, 0xffff, 0x8000_0000, u32::MAX] {
        let mut out: Vec<u8> = Vec::new();
        write_u32(&mut out, value);
        assert_eq!(read_u32(&out, 0), value);
    }
}

#[test]
fn padding_goes_to_the_next_multiple_of_four() {
    assert_eq!([0usize, 1, 3, 4, 5, 8].map(padded_len), [0, 4, 4, 4, 8, 8]);
    let mut out: Vec<u8> = vec![1, 2, 3, 4, 5];
    pad4(&mut out);
    assert_eq!(out, [1, 2, 3, 4, 5, 0, 0, 0]);
    pad4(&mut out);
    assert_eq!(out.len(), 8);
}

#[test]
fn wrapping_is_that_of_casts() {
    for v in [0i64, 1, -1, 32767, 32768, -32768, -32769, 65535, 65536, 100_000, -100_000] {
        assert_eq!(wrap_i16(v), v as i16);
        assert_eq!(wrap_u16(v), v as u16);
    }
}

#[test]
fn decimals_and_string_order() {
    for n in [0u32, 7, 10, 226, 4_294_967_295] {
        let mut s: String = String::from("n=");
        append_decimal(&mut s, n);
        assert_eq!(s, format!("n={n}"));
    }
    assert!(starts_with("renderD128", "renderD"));
    assert!(!starts_with("render", "renderD"));
    assert!(starts_with("", ""));
    let names = ["", "a", "ab", "b", "renderD128", "renderD129", "renderD9"];
    for a in names {
        for b in names {
            assert_eq!(is_before(a, b), a < b, "{a:?} {b:?}");
        }
    }
}
