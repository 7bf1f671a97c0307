use bytes::BytesMut;
use my_eip_project::explicit::{ExplicitMessage, ExplicitMessageType};
use my_eip_project::forward_close::ForwardCloseRequest;
use my_eip_project::forward_open::ForwardOpenRequest;

#[test]
fn forward_open_reads_fields_little_endian() {
    let bytes: [u8; 16] = [
        0x78, 0x56, 0x34, 0x12, // connection id
        0x01, 0x02, 0x03, 0x04, // originator serial number
        0x0A, // timeout ticks
        0x10, 0x27, 0x00, 0x00, // requested packet interval (10000)
        0x01, // transport trigger
        0xEE, 0xFF,
    ];
    let mut buf = BytesMut::from(&bytes[..]);
    let req = ForwardOpenRequest::parse(&mut buf).unwrap();
    assert_eq!(
        req,
        ForwardOpenRequest {
            connection_id: 0x1234_5678,
            originator_serial_number: 0x0403_0201,
            timeout_ticks: 10,
            requested_packet_interval: 10_000,
            transport_trigger: 1,
        }
    );
    // Fourteen bytes are consumed; the two trailing bytes stay.
    assert_eq!(&buf[..], &[0xEE, 0xFF]);
}

#[test]
fn forward_open_needs_sixteen_bytes() {
    let bytes = [7u8; 15];
    let mut buf = BytesMut::from(&bytes[..]);
    assert!(ForwardOpenRequest::parse(&mut buf).is_none());
    assert_eq!(buf.len(), 15);
}

#[test]
fn forward_close_reads_fields() {
    let bytes: [u8; 9] = [0x05, 0x00, 0x00, 0x00, 0xFF, 0xFF, 0xFF, 0xFF, 0x99];
    let mut buf = BytesMut::from(&bytes[..]);
    let req = ForwardCloseRequest::parse(&mut buf).unwrap();
    assert_eq!(req, ForwardCloseRequest { connection_id: 5, originator_serial_number: u32::MAX });
    assert_eq!(&buf[..], &[0x99]);
}

#[test]
fn forward_close_needs_eight_bytes() {
    let bytes = [1u8; 7];
    let mut buf = BytesMut::from(&bytes[..]);
    assert!(ForwardCloseRequest::parse(&mut buf).is_none());
    assert_eq!(buf.len(), 7);
}

#[test]
fn explicit_message_kinds_and_data() {
    let mut buf = BytesMut::from(&[0x01u8, 0x2A, 0x00, 0x00, 0x00, 0xAB, 0xCD][..]);
    let m = ExplicitMessage::parse(&mut buf).unwrap();
    assert_eq!(m.msg_type, ExplicitMessageType::ReadTag);
    assert_eq!(m.connection_id, 42);
    assert_eq!(m.data, vec![0xAB, 0xCD]);
    assert!(buf.is_empty());

    let mut buf = BytesMut::from(&[0x02u8, 0x01, 0x00, 0x00, 0x01, 0x00][..]);
    let m = ExplicitMessage::parse(&mut buf).unwrap();
    assert_eq!(m.msg_type, ExplicitMessageType::WriteTag);
    assert_eq!(m.connection_id, 0x0100_0001);
    assert_eq!(m.data, vec![0x00]);

    let mut buf = BytesMut::from(&[0x7Fu8, 0, 0, 0, 0, 0][..]);
    let m = ExplicitMessage::parse(&mut buf).unwrap();
    assert_eq!(m.msg_type, ExplicitMessageType::Unknown);
}

#[test]
fn explicit_message_needs_six_bytes() {
    let mut buf = BytesMut::from(&[0x01u8, 0x2A, 0x00, 0x00, 0x00][..]);
    assert!(ExplicitMessage::parse(&mut buf).is_none());
    assert_eq!(buf.len(), 5);
}

#[test]
fn explicit_response_layout() {
    let m = ExplicitMessage { msg_type: ExplicitMessageType::ReadTag, connection_id: 0x0A0B0C0D, data: vec![] };
    assert_eq!(m.to_response(true, vec![1, 2, 3]), vec![0x10, 0x0D, 0x0C, 0x0B, 0x0A, 1, 2, 3]);
    assert_eq!(m.to_response(false, vec![]), vec![0x20, 0x0D, 0x0C, 0x0B, 0x0A]);
}

#[test]
fn explicit_response_echoes_connection_id() {
    let request = [0x02u8, 0x11, 0x22, 0x33, 0x44, 0x55];
    let mut buf = BytesMut::from(&request[..]);
    let m = ExplicitMessage::parse(&mut buf).unwrap();
    let response = m.to_response(true, vec![9]);
    assert_eq!(&response[1..5], &request[1..5]);
}

#[test]
fn response_reads_back_as_unknown_message() {
    let m = ExplicitMessage { msg_type: ExplicitMessageType::WriteTag, connection_id: 77, data: vec![] };
    let r = m.to_response(true, vec![5, 6]);
    let mut buf = BytesMut::from(&r[..]);
    let back = ExplicitMessage::parse(&mut buf).unwrap();
    assert_eq!(back.msg_type, ExplicitMessageType::Unknown);
    assert_eq!(back.connection_id, 77);
    assert_eq!(back.data, vec![5, 6]);

    let r = m.to_response(false, vec![]);
    let mut buf = BytesMut::from(&r[..]);
    assert!(ExplicitMessage::parse(&mut buf).is_none());
}
