use miniredis::codec::{encode_array_frame, encode_bulk_strings, parse_frame, try_parse_one_command};
use miniredis::connection::FrameBuffer;

#[test]
fn round_trip_keeps_arbitrary_bytes() {
    let args: Vec<Vec<u8>> = vec![b"SET".to_vec(), b"k\r\ney".to_vec(), vec![0, 255, 13, 10, 200], Vec::new()];
    let mut bytes = encode_array_frame(&args);
    let len = bytes.len();
    bytes.extend_from_slice(b"*1\r\n");
    let (decoded, used) = parse_frame(&bytes).unwrap().unwrap();
    assert_eq!(decoded, args);
    assert_eq!(used, len);
}

#[test]
fn encoding_counts_bytes_not_characters() {
    let args = vec!["é".as_bytes().to_vec()];
    assert_eq!(encode_bulk_strings(&args), b"$2\r\n\xc3\xa9\r\n".to_vec());
    assert_eq!(encode_array_frame(&args), b"*1\r\n$2\r\n\xc3\xa9\r\n".to_vec());
}

#[test]
fn every_strict_prefix_needs_more() {
    let frame = b"*2\r\n$4\r\nECHO\r\n$5\r\nhello\r\n";
    for i in 0..frame.len() {
        assert_eq!(try_parse_one_command(&frame[..i]).unwrap(), None, "prefix of {} bytes", i);
    }
    assert_eq!(try_parse_one_command(frame).unwrap(), Some((frame.to_vec(), frame.len())));
}

#[test]
fn two_frames_fed_one_byte_at_a_time() {
    let f1 = b"*1\r\n$4\r\nPING\r\n";
    let f2 = b"*2\r\n$3\r\nGET\r\n$1\r\nk\r\n";
    let all: Vec<u8> = [&f1[..], &f2[..]].concat();
    let mut buf = FrameBuffer::new();
    let mut found: Vec<(usize, Vec<u8>)> = Vec::new();
    for (i, b) in all.iter().enumerate() {
        buf.push(&[*b]);
        while let Some(frame) = buf.next_frame().unwrap() {
            found.push((i + 1, frame));
        }
    }
    assert_eq!(found, vec![(f1.len(), f1.to_vec()), (all.len(), f2.to_vec())]);
    assert_eq!(buf.len(), 0);
}

#[test]
fn trailing_bytes_stay_for_the_next_call() {
    let input = b"*1\r\n$4\r\nPING\r\n*1\r\n$4\r\nPI";
    let (frame, used) = try_parse_one_command(input).unwrap().unwrap();
    assert_eq!(used, 14);
    assert_eq!(frame, b"*1\r\n$4\r\nPING\r\n".to_vec());
    assert_eq!(try_parse_one_command(&input[used..]).unwrap(), None);
}

#[test]
fn malformed_frames_are_errors() {
    assert!(try_parse_one_command(b"+PONG\r\n").is_err());
    assert!(try_parse_one_command(b"*-1\r\n").is_err());
    assert!(try_parse_one_command(b"*1\r\n$-1\r\n").is_err());
    assert!(try_parse_one_command(b"*1\r\n+OK\r\n").is_err());
    assert!(try_parse_one_command(b"*1\r\n$3\r\nPING\r\n").is_err());
    assert!(try_parse_one_command(b"*1x\r\n").is_err());
    assert!(try_parse_one_command(b"*99999999999999999999999999\r\n").is_err());
}

#[test]
fn empty_input_needs_more() {
    assert_eq!(try_parse_one_command(b"").unwrap(), None);
    assert_eq!(parse_frame(b"").unwrap(), None);
}

#[test]
fn empty_array_decodes() {
    let (args, used) = parse_frame(b"*0\r\n").unwrap().unwrap();
    assert!(args.is_empty());
    assert_eq!(used, 4);
}
