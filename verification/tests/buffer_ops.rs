use ota_update::buffer::ByteBuffer;

#[test]
fn push_truncates_at_capacity() {
    let mut b = ByteBuffer::new(4);
    assert_eq!(b.push(&[1, 2, 3]), 3);
    assert_eq!(b.push(&[4, 5, 6]), 1);
    assert_eq!(b.len(), 4);
    assert_eq!(b.push(&[7]), 0);
    assert_eq!(b.len(), 4);
    assert_eq!(b.capacity(), 4);
}

#[test]
fn next_line_needs_terminator_even_when_full() {
    let mut b = ByteBuffer::new(4);
    assert_eq!(b.push(b"abcd"), 4);
    assert!(b.next_line().is_none());
    assert_eq!(b.len(), 4);
}

#[test]
fn next_line_strips_carriage_return() {
    let mut b = ByteBuffer::new(16);
    b.push(b"ab\r\ncd\n");
    assert_eq!(b.next_line().unwrap(), b"ab".to_vec());
    assert_eq!(b.next_line().unwrap(), b"cd".to_vec());
    assert!(b.next_line().is_none());
}

#[test]
fn carriage_return_in_the_middle_stays() {
    let mut b = ByteBuffer::new(16);
    b.push(b"a\rb\n");
    assert_eq!(b.next_line().unwrap(), b"a\rb".to_vec());
}

#[test]
fn empty_line_and_remaining_slice() {
    let mut b = ByteBuffer::new(16);
    b.push(b"\r\nrest");
    assert_eq!(b.next_line().unwrap(), Vec::<u8>::new());
    assert_eq!(b.remaining_slice(), &b"rest"[..]);
}

#[test]
fn split_right_carries_tail() {
    let mut b = ByteBuffer::new(8);
    b.push(b"abcdef");
    let r = b.split_right(4);
    assert_eq!(r.capacity(), 8);
    assert_eq!(r.len(), 2);
    assert_eq!(r.remaining_slice(), &b"ef"[..]);
    let whole = b.split_right(0);
    assert_eq!(whole.remaining_slice(), &b"abcdef"[..]);
}

#[test]
fn clear_resets_both_cursors() {
    let mut b = ByteBuffer::new(8);
    b.push(b"xyz\n");
    assert!(b.next_line().is_some());
    b.clear();
    assert_eq!(b.len(), 0);
    assert_eq!(b.push(b"12345678"), 8);
}
