use stomp::codec::parse_transmission;
use stomp::frame::Frame;
use stomp::frame::Transmission;
use stomp::frame_buffer::FrameBuffer;

#[test]
fn send_frame_wire_form() {
    let mut frame = Frame::send(b"/q/x", b"hello");
    frame.headers.add(b"content-length", b"5");
    assert_eq!(frame.encode(), b"SEND\ndestination:/q/x\ncontent-length:5\n\nhello\0".to_vec());
}

#[test]
fn parse_reads_back_encoded_frame() {
    let mut frame = Frame::send(b"/q/x", b"he\0llo");
    frame.headers.add(b"content-length", b"6");
    let bytes = frame.encode();
    match parse_transmission(&bytes) {
        Some((Transmission::CompleteFrame(f), n)) => {
            assert_eq!(n, bytes.len());
            assert_eq!(f.command, b"SEND".to_vec());
            assert_eq!(f.body, b"he\0llo".to_vec());
            assert_eq!(f.encode(), bytes);
        }
        _ => panic!("expected a frame"),
    }
}

#[test]
fn buffer_keeps_partial_data() {
    let mut buffer = FrameBuffer::new();
    buffer.append(b"MESSAGE\nsubscription:0\n\npay");
    assert!(buffer.read_transmission().is_none());
    buffer.append(b"load\0\n");
    match buffer.read_transmission() {
        Some(Transmission::CompleteFrame(f)) => assert_eq!(f.body, b"payload".to_vec()),
        _ => panic!("expected a frame"),
    }
    assert!(matches!(buffer.read_transmission(), Some(Transmission::HeartBeat)));
    assert!(buffer.read_transmission().is_none());
    assert_eq!(buffer.len(), 0);
}
