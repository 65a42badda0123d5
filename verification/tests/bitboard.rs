use chess::{BitBoard, CoreError};

#[test]
fn new_mask_is_empty() {
    let b = BitBoard::new();
    assert_eq!(b.0, 0);
    assert_eq!(b.count_set(), 0);
    assert_eq!(b.lowest_set_index(), None);
    assert_eq!(b.iterate(), Vec::<usize>::new());
    assert_eq!(BitBoard::default(), b);
}

#[test]
fn set_bit_sets_the_bit_of_that_index() {
    let mut b = BitBoard::new();
    assert_eq!(b.set_bit(0), Ok(()));
    assert_eq!(b.0, 1);
    assert_eq!(b.set_bit(63), Ok(()));
    assert_eq!(b.0, 0x8000_0000_0000_0001);
    assert_eq!(b.set_bit(12), Ok(()));
    assert_eq!(b.0, 0x8000_0000_0000_1001);
    assert_eq!(b.set_bit(12), Ok(()));
    assert_eq!(b.0, 0x8000_0000_0000_1001);
}

#[test]
fn is_bit_set_reads_what_was_set() {
    let mut b = BitBoard::new();
    b.set_bit(17).unwrap();
    assert_eq!(b.is_bit_set(17), Ok(true));
    assert_eq!(b.is_bit_set(16), Ok(false));
    assert_eq!(b.is_bit_set(18), Ok(false));
    assert_eq!(b.is_bit_set(46), Ok(false));
}

#[test]
fn unset_bit_clears_the_stored_bit() {
    let mut b = BitBoard(0xff);
    assert_eq!(b.unset_bit(3), Ok(()));
    assert_eq!(b.0, 0xf7);
    assert_eq!(b.is_bit_set(3), Ok(false));
    assert_eq!(b.unset_bit(3), Ok(()));
    assert_eq!(b.0, 0xf7);
    assert_eq!(b.unset_bit(40), Ok(()));
    assert_eq!(b.0, 0xf7);
}

#[test]
fn an_index_of_64_or_more_is_out_of_range() {
    let mut b = BitBoard(0x55);
    assert_eq!(b.set_bit(64), Err(CoreError::IndexOutOfRange));
    assert_eq!(b.unset_bit(64), Err(CoreError::IndexOutOfRange));
    assert_eq!(b.is_bit_set(64), Err(CoreError::IndexOutOfRange));
    assert_eq!(b.set_bit(usize::MAX), Err(CoreError::IndexOutOfRange));
    assert_eq!(b.is_bit_set(127), Err(CoreError::IndexOutOfRange));
    assert_eq!(b.0, 0x55);
}

#[test]
fn count_set_counts_the_bits() {
    assert_eq!(BitBoard(0).count_set(), 0);
    assert_eq!(BitBoard(0xff00).count_set(), 8);
    assert_eq!(BitBoard(u64::MAX).count_set(), 64);
    assert_eq!(BitBoard(0x8000_0000_0000_0001).count_set(), 2);
}

#[test]
fn lowest_set_index_is_the_lowest() {
    assert_eq!(BitBoard(0).lowest_set_index(), None);
    assert_eq!(BitBoard(1).lowest_set_index(), Some(0));
    assert_eq!(BitBoard(0xff00).lowest_set_index(), Some(8));
    assert_eq!(BitBoard(0x8000_0000_0000_0000).lowest_set_index(), Some(63));
}

#[test]
fn iterate_lists_the_bits_in_rising_order() {
    assert_eq!(BitBoard(0x8000_0000_0000_1005).iterate(), vec![0, 2, 12, 63]);
    let b = BitBoard(0x42);
    assert_eq!(b.iterate(), vec![1, 6]);
    assert_eq!(b.iterate(), vec![1, 6]);
}

#[test]
fn bitwise_operations_are_pure() {
    let a = BitBoard(0b1100);
    let b = BitBoard(0b1010);
    assert_eq!(a.and(b), BitBoard(0b1000));
    assert_eq!(a.or(b), BitBoard(0b1110));
    assert_eq!(a.xor(b), BitBoard(0b0110));
    assert_eq!(a.not(), BitBoard(!0b1100u64));
    assert_eq!(a, BitBoard(0b1100));
    assert_eq!(b, BitBoard(0b1010));
    assert_eq!(a.not().not(), a);
}
