use ltrait::ui::{Buffer, Position};

#[test]
fn test_buffer() {
    let mut pos = Position::default();
    let mut buf = {
        let mut buf = Buffer::default();
        let v = buf.as_mut();
        v.push((1, 1));
        v.push((2, 2));
        buf
    };

    assert_eq!(buf.next(&mut pos), Some((1u32, 1)).as_ref());
    assert_eq!(buf.next(&mut pos), Some((2u32, 2)).as_ref());
    assert_eq!(buf.next(&mut pos), None);
    pos.reset();
    assert_eq!(buf.next(&mut pos), Some((1u32, 1)).as_ref());
    assert_eq!(buf.next(&mut pos), Some((2u32, 2)).as_ref());
    assert_eq!(buf.next(&mut pos), None);
}

#[test]
fn buffer_push_len_and_reset() {
    let mut buf: Buffer<u8> = Buffer::default();
    assert!(buf.is_empty());
    assert_eq!(buf.len(), 0);
    buf.push(7);
    buf.push(9);
    assert_eq!(buf.len(), 2);
    assert!(!buf.is_empty());
    let mut pos = Position::default();
    assert!(buf.has_next(&pos));
    assert_eq!(buf.next(&mut pos), Some(&7));
    assert!(!buf.has_next(&pos));
    buf.reset();
    assert!(buf.is_empty());
}

#[test]
fn buffer_from_vec() {
    let buf: Buffer<i32> = Buffer::from(vec![3, 1, 2]);
    assert_eq!(buf.len(), 3);
    let mut pos = Position::default();
    assert_eq!(buf.next(&mut pos), Some(&3));
}
