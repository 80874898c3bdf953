use disasm_core::decode::{Array, BitWidth, Reader};

#[test]
fn bit_width_compare_and_copy() {
    let w = BitWidth::U64;
    let v = w;
    assert_eq!(w, v);
    assert_ne!(BitWidth::U128, BitWidth::U16);
}

#[test]
fn array_index_write_grows_length() {
    // A write at index 2 of a 4-slot sequence raises the length to 3.
    let mut a: Array<u8, 4> = Array::new();
    assert_eq!(a.len(), 0);
    a.set(2, 7);
    assert_eq!(a.len(), 3);
    assert_eq!(a.as_slice(), &[0, 0, 7]);
    assert_eq!(*a.get(2), 7);
}

#[test]
fn array_length_is_high_water_mark() {
    let mut a: Array<u8, 8> = Array::new();
    a.set(5, 1);
    assert_eq!(a.len(), 6);
    a.set(1, 2);
    assert_eq!(a.len(), 6);
}

#[test]
fn array_remove_shifts_prefix() {
    let mut a: Array<u8, 4> = Array::new();
    a.set(0, 10);
    a.set(1, 20);
    a.set(2, 30);
    a.remove(1);
    assert_eq!(a.len(), 2);
    assert_eq!(a.as_slice(), &[10, 30]);
}

#[test]
fn array_remove_first_and_last() {
    let mut a: Array<u8, 4> = Array::new();
    a.set(0, 1);
    a.set(1, 2);
    a.set(2, 3);
    a.remove(0);
    assert_eq!(a.as_slice(), &[2, 3]);
    a.remove(1);
    assert_eq!(a.as_slice(), &[2]);
}

#[test]
fn array_clone_keeps_length_and_contents() {
    let mut a: Array<u8, 4> = Array::new();
    a.set(1, 9);
    let b = a.clone();
    assert_eq!(b.len(), 2);
    assert_eq!(b.as_slice(), &[0, 9]);
}

#[test]
fn array_mut_slice_writes_through() {
    let mut a: Array<u8, 4> = Array::new();
    a.set(0, 1);
    a.set(1, 2);
    {
        let s = a.as_mut_slice();
        assert_eq!(s, &[1, 2]);
        s[1] = 9;
    }
    assert_eq!(a.len(), 2);
    assert_eq!(a.as_slice(), &[1, 9]);
}

#[test]
fn array_default_is_empty() {
    let a: Array<u8, 3> = Array::default();
    assert_eq!(a.len(), 0);
    assert_eq!(a.as_slice(), &[] as &[u8]);
}

#[test]
fn array_equality_compares_trailing_slots() {
    // Equality looks at the full backing storage: equal observable prefixes
    // with different trailing slots compare unequal.
    let mut a: Array<u8, 4> = Array::new();
    a.set(0, 1);
    a.set(1, 2);
    a.set(2, 3);
    a.remove(2);
    let mut b: Array<u8, 4> = Array::new();
    b.set(0, 1);
    b.set(1, 2);
    assert_eq!(a.len(), b.len());
    assert_eq!(a.as_slice(), b.as_slice());
    assert!(a != b);

    let c: Array<u8, 4> = Array::new();
    let d: Array<u8, 4> = Array::new();
    assert!(c == d);
}

#[test]
fn reader_take_matches_byte() {
    let buf = [1u8, 2, 3];
    let mut r = Reader::new(&buf);
    assert!(r.take(1));
    assert!(!r.take(9));
    assert_eq!(r.pos, 1);
    assert!(r.take(2));
    assert_eq!(r.pos, 2);
}

#[test]
fn reader_take_failure_is_idempotent() {
    // A failed take leaves the position unchanged, so the same call fails
    // the same way again.
    let buf = [5u8];
    let mut r = Reader::new(&buf);
    assert!(!r.take(6));
    assert_eq!(r.pos, 0);
    assert!(!r.take(6));
    assert_eq!(r.pos, 0);
}

#[test]
fn reader_take_slice() {
    let buf = [1u8, 2, 3, 4];
    let mut r = Reader::new(&buf);
    assert!(r.take_slice(&[1, 2]));
    assert_eq!(r.pos, 2);
    assert!(!r.take_slice(&[3, 5]));
    assert_eq!(r.pos, 2);
    assert!(!r.take_slice(&[3, 4, 5]));
    assert!(r.take_slice(&[3, 4]));
    assert_eq!(r.pos, 4);
    assert!(r.take_slice(&[]));
}

#[test]
fn reader_consume_always_advances() {
    // `consume` advances by exactly one whether or not a byte is present;
    // at most `buf.len()` calls return a byte.
    let buf = [7u8, 8];
    let mut r = Reader::new(&buf);
    assert_eq!(r.consume(), Some(7));
    assert_eq!(r.consume(), Some(8));
    assert_eq!(r.consume(), None);
    assert_eq!(r.consume(), None);
    assert_eq!(r.pos, 4);
}

#[test]
fn reader_consume_eq_checks_predicate() {
    let buf = [10u8, 11];
    let mut r = Reader::new(&buf);
    assert_eq!(r.consume_eq(|b| b == 10), Some(10));
    assert_eq!(r.consume_eq(|b| b == 10), None);
    assert_eq!(r.pos, 1);
    assert_eq!(r.consume_eq(|b| b > 5), Some(11));
    assert_eq!(r.consume_eq(|_| true), None);
    assert_eq!(r.pos, 2);
}

#[test]
fn reader_inner_and_offset() {
    let buf = [1u8, 2, 3, 4];
    let mut r = Reader::new(&buf);
    assert_eq!(r.inner(), &[1, 2, 3, 4]);
    r.offset(3);
    assert_eq!(r.inner(), &[4]);
    r.offset(-2);
    assert_eq!(r.inner(), &[2, 3, 4]);
}
