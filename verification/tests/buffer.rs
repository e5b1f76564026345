use http::ByteBuffer;

#[test]
fn new_buffer_is_empty() {
    let buf = ByteBuffer::new();
    assert_eq!(buf.len(), 0);
    assert_eq!(buf.view(), b"");
}

#[test]
fn append_adds_behind() {
    let mut buf = ByteBuffer::new();
    buf.append(b"GET ");
    buf.append(b"");
    buf.append(b"/ HTTP");
    assert_eq!(buf.len(), 10);
    assert_eq!(buf.view(), b"GET / HTTP");
}

#[test]
fn from_vec_keeps_the_bytes() {
    let buf = ByteBuffer::from_vec(vec![1, 2, 3]);
    assert_eq!(buf.view(), &[1, 2, 3]);
}

#[test]
fn detach_prefix_splits_at_the_offset() {
    let mut buf = ByteBuffer::from_vec(b"headbody".to_vec());
    let head = buf.detach_prefix(4);
    assert_eq!(head.view(), b"head");
    assert_eq!(head.len(), 4);
    assert_eq!(buf.view(), b"body");
    assert_eq!(buf.len(), 4);
}

#[test]
fn detach_prefix_of_nothing_and_of_everything() {
    let mut buf = ByteBuffer::from_vec(b"abc".to_vec());
    let none = buf.detach_prefix(0);
    assert_eq!(none.len(), 0);
    assert_eq!(buf.view(), b"abc");
    let all = buf.detach_prefix(3);
    assert_eq!(all.view(), b"abc");
    assert_eq!(buf.len(), 0);
}

#[test]
fn remainder_is_renumbered_and_grows_again() {
    let mut buf = ByteBuffer::from_vec(b"0123456789".to_vec());
    let first = buf.detach_prefix(3);
    let second = buf.detach_prefix(3);
    buf.append(b"ab");
    assert_eq!(first.view(), b"012");
    assert_eq!(second.view(), b"345");
    assert_eq!(buf.view(), b"6789ab");
}
