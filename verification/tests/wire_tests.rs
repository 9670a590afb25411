use ublog::wire::frame_message;
use ublog::wire::parse_frame;

#[test]
fn test_frame_message_prefix() {
    let framed = frame_message(&vec![7, 8, 9]);
    assert_eq!(framed, vec![3, 0, 0, 0, 0, 0, 0, 0, 7, 8, 9]);
}

#[test]
fn test_parse_frame_round_trip() {
    let framed = frame_message(&vec![42, 43]);
    let payload = parse_frame(&framed).unwrap();
    assert_eq!(payload, vec![42, 43]);
}

#[test]
fn test_parse_frame_short_buffer() {
    assert!(parse_frame(&[1, 2, 3]).is_none());
    // The prefix announces more bytes than the buffer holds.
    assert!(parse_frame(&[5, 0, 0, 0, 0, 0, 0, 0, 1]).is_none());
}
