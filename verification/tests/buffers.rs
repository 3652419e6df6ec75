use anchor::fifo_buffer::FifoBuffer;
use anchor::input_buffer::InputBuffer;
use anchor::input_buffer::SliceInputBuffer;

#[test]
fn fifo_extend_and_pop() {
    let mut f: FifoBuffer<8> = FifoBuffer::new();
    assert!(f.is_empty());
    f.extend(&[1, 2, 3, 4]);
    assert_eq!(f.len(), 4);
    assert_eq!(f.data(), &[1, 2, 3, 4]);
    f.pop(2);
    assert_eq!(f.data(), &[3, 4]);
    f.extend(&[5, 6]);
    assert_eq!(f.data(), &[3, 4, 5, 6]);
}

#[test]
fn fifo_overflowing_extend_is_dropped_whole() {
    let mut f: FifoBuffer<4> = FifoBuffer::new();
    f.extend(&[1, 2, 3]);
    // Five more bytes cannot fit: the write is dropped entirely, never
    // partially.
    f.extend(&[4, 5, 6, 7, 8]);
    assert_eq!(f.data(), &[1, 2, 3]);
    f.extend(&[4]);
    assert_eq!(f.data(), &[1, 2, 3, 4]);
}

#[test]
fn fifo_pop_clamps() {
    let mut f: FifoBuffer<8> = FifoBuffer::new();
    f.extend(&[1, 2]);
    f.pop(100);
    assert!(f.is_empty());
}

#[test]
fn slice_input_buffer_pop() {
    let bytes = [10u8, 20, 30, 40];
    let mut b = SliceInputBuffer::new(&bytes);
    assert_eq!(b.available(), 4);
    assert_eq!(b.data(), &[10, 20, 30, 40]);
    b.pop(2);
    assert_eq!(b.data(), &[30, 40]);
    b.pop(99);
    assert_eq!(b.available(), 0);
}

#[test]
fn vec_input_buffer_pop() {
    let mut v: Vec<u8> = vec![1, 2, 3, 4, 5];
    assert_eq!(InputBuffer::data(&v), &[1, 2, 3, 4, 5]);
    InputBuffer::pop(&mut v, 2);
    assert_eq!(v, vec![3, 4, 5]);
    InputBuffer::pop(&mut v, 10);
    assert!(v.is_empty());
}

#[test]
fn fifo_fill_from_takes_what_fits() {
    let mut f: FifoBuffer<4> = FifoBuffer::new();
    assert_eq!(f.fill_from(&[1, 2, 3]), 3);
    assert_eq!(f.data(), &[1, 2, 3]);
    // Only one byte of space is left; the rest stays with the caller.
    assert_eq!(f.fill_from(&[4, 5, 6]), 1);
    assert_eq!(f.data(), &[1, 2, 3, 4]);
    assert_eq!(f.fill_from(&[7]), 0);
    f.pop(2);
    assert_eq!(f.fill_from(&[7, 8, 9]), 2);
    assert_eq!(f.data(), &[3, 4, 7, 8]);
}
