use mini_runtime::collect_read;

#[test]
fn read_bytes_are_appended() {
    let mut page = b"GET".to_vec();
    let buf = vec![b' ', b'/', b' ', 0, 0];
    assert!(collect_read(&mut page, &buf, 3));
    assert_eq!(page, b"GET / ".to_vec());
}

#[test]
fn empty_read_ends_the_response() {
    let mut page = b"HTTP/1.0 200 OK".to_vec();
    let buf = vec![7u8; 128];
    assert!(!collect_read(&mut page, &buf, 0));
    assert_eq!(page, b"HTTP/1.0 200 OK".to_vec());
}

#[test]
fn full_buffer_read_is_appended_whole() {
    let mut page = Vec::new();
    let buf: Vec<u8> = (0..128u8).collect();
    assert!(collect_read(&mut page, &buf, 128));
    assert_eq!(page, buf);
}
