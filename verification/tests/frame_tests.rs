//! Tests of the frame pipeline: streaming decode, pipelining, and the
//! session step.

use memds::connection::{handle_next_frame, DecodedFrame, FrameReader, SessionStep};
use memds::connection::decode_frame;
use memds::database::Database;

fn v(b: &[u8]) -> Vec<u8> {
    b.to_vec()
}

#[test]
fn test_decode_frame_complete() {
    let bytes = b"*2\r\n$3\r\nGET\r\n$1\r\na\r\n";
    match decode_frame(bytes) {
        DecodedFrame::Frame(elems, consumed) => {
            assert_eq!(elems, vec![v(b"GET"), v(b"a")]);
            assert_eq!(consumed, bytes.len());
        },
        _ => panic!("expected a complete frame"),
    }
}

#[test]
fn test_decode_frame_incomplete() {
    for prefix_len in 0..20 {
        let bytes = &b"*2\r\n$3\r\nGET\r\n$1\r\na\r\n"[..prefix_len];
        assert!(matches!(decode_frame(bytes), DecodedFrame::Incomplete));
    }
}

#[test]
fn test_decode_frame_malformed() {
    assert!(matches!(decode_frame(b"PING\r\n"), DecodedFrame::Malformed));
    assert!(matches!(decode_frame(b"*x\r\n"), DecodedFrame::Malformed));
    assert!(matches!(decode_frame(b"*01\r\n"), DecodedFrame::Malformed));
    assert!(matches!(decode_frame(b"*1\r\n+PING\r\n"), DecodedFrame::Malformed));
    assert!(matches!(decode_frame(b"*1\r\n$4\r\nPINGXX"), DecodedFrame::Malformed));
}

#[test]
fn test_frame_reader_partial_reads() {
    let mut reader = FrameReader::new();
    reader.append(b"*1\r\n$4\r\nPI");
    assert!(matches!(reader.next_buffered_frame(), Ok(None)));
    reader.append(b"NG\r\n");
    let frame = reader.next_buffered_frame().unwrap().unwrap();
    assert_eq!(frame, vec![v(b"PING")]);
    assert!(matches!(reader.next_buffered_frame(), Ok(None)));
}

#[test]
fn test_frame_reader_malformed_is_error() {
    let mut reader = FrameReader::new();
    reader.append(b"GARBAGE\r\n");
    assert!(reader.next_buffered_frame().is_err());
}

#[test]
fn test_pipelined_reads() {
    // Two frames concatenated in one read are both decoded and
    // responded to, in order, before the next read.
    let mut reader = FrameReader::new();
    let mut db = Database::new();
    let mut write_buf: Vec<u8> = Vec::new();
    reader.append(b"*1\r\n$4\r\nPING\r\n*2\r\n$3\r\nGET\r\n$1\r\na\r\n");

    match handle_next_frame(&mut reader, &mut db, &mut write_buf).unwrap() {
        SessionStep::Handled { flush_now, save_requested } => {
            assert!(!flush_now);
            assert!(!save_requested);
        },
        SessionStep::NoFrame => panic!("first frame should be handled"),
    }
    assert_eq!(write_buf, b"+PONG\r\n".to_vec());

    match handle_next_frame(&mut reader, &mut db, &mut write_buf).unwrap() {
        SessionStep::Handled { .. } => {},
        SessionStep::NoFrame => panic!("second frame should be handled"),
    }
    assert_eq!(write_buf, b"+PONG\r\n_\r\n".to_vec());

    match handle_next_frame(&mut reader, &mut db, &mut write_buf).unwrap() {
        SessionStep::NoFrame => {},
        SessionStep::Handled { .. } => panic!("no third frame was sent"),
    }
}

#[test]
fn test_error_response_asks_for_flush() {
    let mut reader = FrameReader::new();
    let mut db = Database::new();
    let mut write_buf: Vec<u8> = Vec::new();
    reader.append(b"*1\r\n$3\r\nGET\r\n");
    match handle_next_frame(&mut reader, &mut db, &mut write_buf).unwrap() {
        SessionStep::Handled { flush_now, .. } => assert!(flush_now),
        SessionStep::NoFrame => panic!("the frame is complete"),
    }
    assert_eq!(write_buf, b"-ERR failed to parse: GET\r\n".to_vec());
}
